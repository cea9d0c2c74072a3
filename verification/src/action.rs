//! The action spaces: their order of opening, the goods and animals they
//! give, and their names.
use vstd::prelude::*;
use crate::resources::{Animals, Resources, DONKEY, SHEEP};

verus! {

/// Number of action spaces.
pub const SPACE_COUNT: usize = 22;

/// The action spaces, in the order in which they open: the first 13 are
/// open from the start and one more opens every round.
#[derive(Clone, Copy, PartialEq, Eq, Structural, Debug)]
pub enum ActionSpace {
    DriftMining,
    Logging,
    WoodGathering,
    Excavation,
    Supplies,
    Clearing,
    StartingPlayer,
    OreMining,
    Sustenance,
    RubyMining,
    Housework,
    SlashAndBurn,
    SheepFarming,
    OreMineConstruction,
    Blacksmithing,
    WishForChildren,
    RubyMineConstruction,
    DonkeyFarming,
    FamilyLife,
    OreDelivery,
    RubyDelivery,
    Adventure,
}

/// The action space at position `i` of the opening order.
pub open spec fn space_at(i: int) -> ActionSpace {
    if i == 0 {
        ActionSpace::DriftMining
    } else if i == 1 {
        ActionSpace::Logging
    } else if i == 2 {
        ActionSpace::WoodGathering
    } else if i == 3 {
        ActionSpace::Excavation
    } else if i == 4 {
        ActionSpace::Supplies
    } else if i == 5 {
        ActionSpace::Clearing
    } else if i == 6 {
        ActionSpace::StartingPlayer
    } else if i == 7 {
        ActionSpace::OreMining
    } else if i == 8 {
        ActionSpace::Sustenance
    } else if i == 9 {
        ActionSpace::RubyMining
    } else if i == 10 {
        ActionSpace::Housework
    } else if i == 11 {
        ActionSpace::SlashAndBurn
    } else if i == 12 {
        ActionSpace::SheepFarming
    } else if i == 13 {
        ActionSpace::OreMineConstruction
    } else if i == 14 {
        ActionSpace::Blacksmithing
    } else if i == 15 {
        ActionSpace::WishForChildren
    } else if i == 16 {
        ActionSpace::RubyMineConstruction
    } else if i == 17 {
        ActionSpace::DonkeyFarming
    } else if i == 18 {
        ActionSpace::FamilyLife
    } else if i == 19 {
        ActionSpace::OreDelivery
    } else if i == 20 {
        ActionSpace::RubyDelivery
    } else {
        ActionSpace::Adventure
    }
}

impl ActionSpace {
    /// The position of the space in the opening order.
    #[verifier::allow_in_spec]
    pub fn index(self) -> usize
        returns
            (match self {
                ActionSpace::DriftMining => 0usize,
                ActionSpace::Logging => 1usize,
                ActionSpace::WoodGathering => 2usize,
                ActionSpace::Excavation => 3usize,
                ActionSpace::Supplies => 4usize,
                ActionSpace::Clearing => 5usize,
                ActionSpace::StartingPlayer => 6usize,
                ActionSpace::OreMining => 7usize,
                ActionSpace::Sustenance => 8usize,
                ActionSpace::RubyMining => 9usize,
                ActionSpace::Housework => 10usize,
                ActionSpace::SlashAndBurn => 11usize,
                ActionSpace::SheepFarming => 12usize,
                ActionSpace::OreMineConstruction => 13usize,
                ActionSpace::Blacksmithing => 14usize,
                ActionSpace::WishForChildren => 15usize,
                ActionSpace::RubyMineConstruction => 16usize,
                ActionSpace::DonkeyFarming => 17usize,
                ActionSpace::FamilyLife => 18usize,
                ActionSpace::OreDelivery => 19usize,
                ActionSpace::RubyDelivery => 20usize,
                ActionSpace::Adventure => 21usize,
            }),
    {
        match self {
            ActionSpace::DriftMining => 0,
            ActionSpace::Logging => 1,
            ActionSpace::WoodGathering => 2,
            ActionSpace::Excavation => 3,
            ActionSpace::Supplies => 4,
            ActionSpace::Clearing => 5,
            ActionSpace::StartingPlayer => 6,
            ActionSpace::OreMining => 7,
            ActionSpace::Sustenance => 8,
            ActionSpace::RubyMining => 9,
            ActionSpace::Housework => 10,
            ActionSpace::SlashAndBurn => 11,
            ActionSpace::SheepFarming => 12,
            ActionSpace::OreMineConstruction => 13,
            ActionSpace::Blacksmithing => 14,
            ActionSpace::WishForChildren => 15,
            ActionSpace::RubyMineConstruction => 16,
            ActionSpace::DonkeyFarming => 17,
            ActionSpace::FamilyLife => 18,
            ActionSpace::OreDelivery => 19,
            ActionSpace::RubyDelivery => 20,
            ActionSpace::Adventure => 21,
        }
    }

    /// The action space at position `i` of the opening order.
    pub fn from_index(i: usize) -> (r: ActionSpace)
        requires
            i < SPACE_COUNT,
        ensures
            r == space_at(i as int),
            r.index() == i,
    {
        match i {
            0 => ActionSpace::DriftMining,
            1 => ActionSpace::Logging,
            2 => ActionSpace::WoodGathering,
            3 => ActionSpace::Excavation,
            4 => ActionSpace::Supplies,
            5 => ActionSpace::Clearing,
            6 => ActionSpace::StartingPlayer,
            7 => ActionSpace::OreMining,
            8 => ActionSpace::Sustenance,
            9 => ActionSpace::RubyMining,
            10 => ActionSpace::Housework,
            11 => ActionSpace::SlashAndBurn,
            12 => ActionSpace::SheepFarming,
            13 => ActionSpace::OreMineConstruction,
            14 => ActionSpace::Blacksmithing,
            15 => ActionSpace::WishForChildren,
            16 => ActionSpace::RubyMineConstruction,
            17 => ActionSpace::DonkeyFarming,
            18 => ActionSpace::FamilyLife,
            19 => ActionSpace::OreDelivery,
            20 => ActionSpace::RubyDelivery,
            _ => ActionSpace::Adventure,
        }
    }

    /// The goods that taking the space earns, where `r` is the number of
    /// rounds the space has gone untaken.
    pub open spec fn gain_resources_spec(self, r: int, res: Resources) -> Resources {
        match self {
            ActionSpace::Logging => Resources { wood: (res.wood + 3 + r) as usize, ..res },
            ActionSpace::WoodGathering => Resources { wood: (res.wood + 1 + r) as usize, ..res },
            ActionSpace::Supplies => Resources {
                wood: (res.wood + 1) as usize,
                stone: (res.stone + 1) as usize,
                coal: (res.coal + 1) as usize,
                food: (res.food + 1) as usize,
                gold: (res.gold + 2) as usize,
                ..res
            },
            ActionSpace::StartingPlayer => Resources {
                coal: (res.coal + 2) as usize,
                food: (res.food + 1 + r) as usize,
                ..res
            },
            ActionSpace::Clearing => Resources { wood: (res.wood + 1 + r) as usize, ..res },
            ActionSpace::Sustenance => Resources {
                wheat: (res.wheat + 1) as usize,
                food: (res.food + 1 + r) as usize,
                ..res
            },
            ActionSpace::DriftMining => Resources { stone: (res.stone + 1 + r) as usize, ..res },
            ActionSpace::Excavation => Resources { stone: (res.stone + 1 + r) as usize, ..res },
            ActionSpace::OreMining => Resources { coal: (res.coal + 2 + r) as usize, ..res },
            ActionSpace::RubyMining => Resources { rubies: (res.rubies + 1 + r) as usize, ..res },
            ActionSpace::OreDelivery => Resources {
                stone: (res.stone + 1 + r) as usize,
                coal: (res.coal + 1 + r) as usize,
                ..res
            },
            ActionSpace::RubyDelivery => Resources { rubies: (res.rubies + 2 + r) as usize, ..res },
            _ => res,
        }
    }

    /// Whether the goods that taking the space earns after `r` untaken rounds
    /// fit: every count that grows stays at most `usize::MAX`.
    pub open spec fn gain_resources_fit(self, r: int, res: Resources) -> bool {
        let m = usize::MAX as int;
        match self {
            ActionSpace::Logging => res.wood + 3 + r <= m,
            ActionSpace::WoodGathering | ActionSpace::Clearing => res.wood + 1 + r <= m,
            ActionSpace::Supplies => res.wood + 1 <= m && res.stone + 1 <= m && res.coal + 1 <= m
                && res.food + 1 <= m && res.gold + 2 <= m,
            ActionSpace::StartingPlayer => res.coal + 2 <= m && res.food + 1 + r <= m,
            ActionSpace::Sustenance => res.wheat + 1 <= m && res.food + 1 + r <= m,
            ActionSpace::DriftMining | ActionSpace::Excavation => res.stone + 1 + r <= m,
            ActionSpace::OreMining => res.coal + 2 + r <= m,
            ActionSpace::RubyMining => res.rubies + 1 + r <= m,
            ActionSpace::OreDelivery => res.stone + 1 + r <= m && res.coal + 1 + r <= m,
            ActionSpace::RubyDelivery => res.rubies + 2 + r <= m,
            _ => true,
        }
    }

    /// Whether the animals that taking the space earns after `r` untaken
    /// rounds fit: the herd that grows stays at most `usize::MAX`.
    pub open spec fn gain_animals_fit(self, r: int, a: Seq<usize>) -> bool {
        match self {
            ActionSpace::SheepFarming => a[3] + 1 + r <= usize::MAX,
            ActionSpace::DonkeyFarming => a[2] + 1 + r <= usize::MAX,
            _ => true,
        }
    }

    /// Adds the goods that taking the space earns after `rounds` untaken rounds.
    pub fn gain_resources(self, rounds: u32, resources: &mut Resources)
        requires
            self.gain_resources_fit(rounds as int, *old(resources)),
        ensures
            *final(resources) == self.gain_resources_spec(rounds as int, *old(resources)),
    {
        let r = rounds as usize;
        match self {
            ActionSpace::Logging => resources.wood += 3 + r,
            ActionSpace::WoodGathering => resources.wood += 1 + r,
            ActionSpace::Supplies => {
                resources.wood += 1;
                resources.stone += 1;
                resources.coal += 1;
                resources.food += 1;
                resources.gold += 2;
            },
            ActionSpace::StartingPlayer => {
                resources.coal += 2;
                resources.food += 1 + r;
            },
            ActionSpace::Clearing => resources.wood += 1 + r,
            ActionSpace::Sustenance => {
                resources.wheat += 1;
                resources.food += 1 + r;
            },
            ActionSpace::SlashAndBurn => {},
            ActionSpace::DriftMining => resources.stone += 1 + r,
            ActionSpace::Excavation => resources.stone += 1 + r,
            ActionSpace::SheepFarming => {},
            ActionSpace::DonkeyFarming => {},
            ActionSpace::OreMining => resources.coal += 2 + r,
            ActionSpace::RubyMining => resources.rubies += 1 + r,
            ActionSpace::OreDelivery => {
                resources.stone += 1 + r;
                resources.coal += 1 + r;
            },
            ActionSpace::RubyDelivery => resources.rubies += 2 + r,
            ActionSpace::OreMineConstruction
            | ActionSpace::RubyMineConstruction
            | ActionSpace::Blacksmithing
            | ActionSpace::Adventure
            | ActionSpace::Housework
            | ActionSpace::WishForChildren
            | ActionSpace::FamilyLife => {},
        }
    }

    /// The animals that taking the space earns after `r` untaken rounds.
    pub open spec fn gain_animals_spec(self, r: int, a: Seq<usize>) -> Seq<usize> {
        match self {
            ActionSpace::SheepFarming => a.update(3, (a[3] + 1 + r) as usize),
            ActionSpace::DonkeyFarming => a.update(2, (a[2] + 1 + r) as usize),
            _ => a,
        }
    }

    /// Adds the animals that taking the space earns after `accumulated` untaken rounds.
    pub fn gain_animals(self, accumulated: u32, animals: &mut Animals)
        requires
            self.gain_animals_fit(accumulated as int, old(animals)@),
        ensures
            final(animals)@ == self.gain_animals_spec(accumulated as int, old(animals)@),
    {
        let r = accumulated as usize;
        match self {
            ActionSpace::SheepFarming => animals[SHEEP] = animals[SHEEP] + 1 + r,
            ActionSpace::DonkeyFarming => animals[DONKEY] = animals[DONKEY] + 1 + r,
            _ => {},
        }
        assert(animals@ =~= self.gain_animals_spec(accumulated as int, old(animals)@));
    }

    /// The display name of the space.
    pub open spec fn name_spec(self) -> Seq<char> {
        match self {
            ActionSpace::DriftMining => "Drift Mining"@,
            ActionSpace::Logging => "Logging"@,
            ActionSpace::WoodGathering => "Wood Gathering"@,
            ActionSpace::Excavation => "Excavation"@,
            ActionSpace::Supplies => "Supplies"@,
            ActionSpace::Clearing => "Clearing"@,
            ActionSpace::StartingPlayer => "Starting Player"@,
            ActionSpace::OreMining => "Ore Mining"@,
            ActionSpace::Sustenance => "Sustenance"@,
            ActionSpace::RubyMining => "Ruby Mining"@,
            ActionSpace::Housework => "Housework"@,
            ActionSpace::SlashAndBurn => "Slash and Burn"@,
            ActionSpace::SheepFarming => "Sheep Farming"@,
            ActionSpace::OreMineConstruction => "Ore Mine Construction"@,
            ActionSpace::Blacksmithing => "Blacksmithing"@,
            ActionSpace::WishForChildren => "Wish for Children"@,
            ActionSpace::RubyMineConstruction => "Ruby Mine Construction"@,
            ActionSpace::DonkeyFarming => "Donkey Farming"@,
            ActionSpace::FamilyLife => "Family Life"@,
            ActionSpace::OreDelivery => "Ore Delivery"@,
            ActionSpace::RubyDelivery => "Ruby Delivery"@,
            ActionSpace::Adventure => "Adventure"@,
        }
    }

    /// The display name of the space.
    pub fn name(self) -> (r: &'static str)
        ensures
            r@ == self.name_spec(),
    {
        match self {
            ActionSpace::DriftMining => "Drift Mining",
            ActionSpace::Logging => "Logging",
            ActionSpace::WoodGathering => "Wood Gathering",
            ActionSpace::Excavation => "Excavation",
            ActionSpace::Supplies => "Supplies",
            ActionSpace::Clearing => "Clearing",
            ActionSpace::StartingPlayer => "Starting Player",
            ActionSpace::OreMining => "Ore Mining",
            ActionSpace::Sustenance => "Sustenance",
            ActionSpace::RubyMining => "Ruby Mining",
            ActionSpace::Housework => "Housework",
            ActionSpace::SlashAndBurn => "Slash and Burn",
            ActionSpace::SheepFarming => "Sheep Farming",
            ActionSpace::OreMineConstruction => "Ore Mine Construction",
            ActionSpace::Blacksmithing => "Blacksmithing",
            ActionSpace::WishForChildren => "Wish for Children",
            ActionSpace::RubyMineConstruction => "Ruby Mine Construction",
            ActionSpace::DonkeyFarming => "Donkey Farming",
            ActionSpace::FamilyLife => "Family Life",
            ActionSpace::OreDelivery => "Ore Delivery",
            ActionSpace::RubyDelivery => "Ruby Delivery",
            ActionSpace::Adventure => "Adventure",
        }
    }
}


impl ActionSpace {
    /// Whether the goods that taking the space earns after `rounds` untaken
    /// rounds fit (see `gain_resources_fit`).
    pub fn resources_fit(self, rounds: u32, res: &Resources) -> (r: bool)
        ensures
            r == self.gain_resources_fit(rounds as int, *res),
    {
        let m = usize::MAX as u128;
        let r = rounds as u128;
        match self {
            ActionSpace::Logging => res.wood as u128 + 3 + r <= m,
            ActionSpace::WoodGathering | ActionSpace::Clearing => res.wood as u128 + 1 + r <= m,
            ActionSpace::Supplies => res.wood < usize::MAX && res.stone < usize::MAX && res.coal
                < usize::MAX && res.food < usize::MAX && res.gold as u128 + 2 <= m,
            ActionSpace::StartingPlayer => res.coal as u128 + 2 <= m && res.food as u128 + 1 + r <= m,
            ActionSpace::Sustenance => res.wheat < usize::MAX && res.food as u128 + 1 + r <= m,
            ActionSpace::DriftMining | ActionSpace::Excavation => res.stone as u128 + 1 + r <= m,
            ActionSpace::OreMining => res.coal as u128 + 2 + r <= m,
            ActionSpace::RubyMining => res.rubies as u128 + 1 + r <= m,
            ActionSpace::OreDelivery => res.stone as u128 + 1 + r <= m && res.coal as u128 + 1 + r
                <= m,
            ActionSpace::RubyDelivery => res.rubies as u128 + 2 + r <= m,
            _ => true,
        }
    }

    /// Whether the animals that taking the space earns after `rounds`
    /// untaken rounds fit (see `gain_animals_fit`).
    pub fn animals_fit(self, rounds: u32, a: &Animals) -> (r: bool)
        ensures
            r == self.gain_animals_fit(rounds as int, a@),
    {
        let m = usize::MAX as u128;
        match self {
            ActionSpace::SheepFarming => a[3] as u128 + 1 + rounds as u128 <= m,
            ActionSpace::DonkeyFarming => a[2] as u128 + 1 + rounds as u128 <= m,
            _ => true,
        }
    }
}

} // verus!
