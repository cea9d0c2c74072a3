use caverna::action::ActionSpace;
use caverna::board::{board_delta, changed_cells, Side, Tile, TileGroup};
use caverna::describe::{
    describe_move, describe_moves, farm_lines, feed_text, harvest_text, resource_delta_parts, tile_symbol,
};
use caverna::play::random_move;
use caverna::player::{Pasture, Player};
use caverna::resources::Resources;
use caverna::state::{State, SubAction};
use caverna::tally::{tally, text_less};
use rand::rngs::StdRng;
use rand::SeedableRng;

fn trading_state(food: usize, sheep: usize, wheat: usize) -> State {
    let mut state = State::new(2);
    state.players[0].resources.food = food;
    state.players[0].animals[3] = sheep;
    state.players[0].resources.wheat = wheat;
    state.pending = vec![SubAction::FinishRound, SubAction::TradeFood { player_idx: 0 }];
    state
}

#[test]
fn new_player_counts() {
    let p = Player::new(2);
    assert_eq!(p.food_needed(), 4);
    assert_eq!(p.dwellings_needed(), 2);
    assert_eq!(p.dwelling_capacity(), 2);
    assert_eq!(p.stable_count(), 0);
    assert_eq!(p.resources.food, 2);
}

#[test]
fn new_player_points() {
    // 2 dwarfs, minus 12 forests, 10 mountains and 4 missing animal kinds
    assert_eq!(Player::new(2).points(), -24);
}

#[test]
fn points_formula() {
    let mut p = Player::new(0);
    p.resources.gold = 3;
    p.resources.rubies = 1;
    p.resources.wheat = 3;
    p.resources.vegetables = 1;
    p.resources.begging = 1;
    p.dogs = 1;
    p.animals = [1, 0, 2, 0];
    p.outdoor[0] = Tile::Pasture;
    assert_eq!(p.points(), -15);
}

#[test]
fn feeding_with_and_without_enough_food() {
    let mut p = Player::new(6);
    p.feed();
    assert_eq!(p.resources.food, 2);
    assert_eq!(p.resources.begging, 0);

    let mut q = Player::new(1);
    q.children = 1;
    q.feed();
    assert_eq!(q.resources.food, 0);
    assert_eq!(q.resources.begging, 4);
}

#[test]
fn harvest_takes_one_crop_per_field() {
    let mut p = Player::new(2);
    p.outdoor[0] = Tile::Field(2, 0);
    p.outdoor[1] = Tile::Field(0, 1);
    p.outdoor[2] = Tile::Field(0, 0);
    p.harvest();
    assert_eq!(p.resources.wheat, 1);
    assert_eq!(p.resources.vegetables, 1);
    assert!(p.outdoor[0] == Tile::Field(1, 0));
    assert!(p.outdoor[1] == Tile::Field(0, 0));
    assert!(p.outdoor[2] == Tile::Field(0, 0));
}

#[test]
fn children_grow_into_dwarfs() {
    let mut p = Player::new(2);
    p.children = 2;
    p.grow_children();
    assert_eq!(p.children, 0);
    assert_eq!(p.dwarfs.len(), 4);
    assert!(p.dwarfs[3].placed_on.is_none());
    assert_eq!(p.dwarfs[3].weapon, 0);
}

#[test]
fn breeding_is_trimmed_to_the_home() {
    let mut p = Player::new(2);
    p.animals = [0, 0, 0, 3];
    p.breed();
    assert_eq!(p.animals, [0, 0, 0, 2]);

    let mut q = Player::new(2);
    q.animals = [2, 2, 0, 0];
    q.breed();
    assert_eq!(q.animals, [2, 0, 0, 0]);
}

#[test]
fn trimming_uses_pastures_then_free_slots() {
    let mut p = Player::new(2);
    p.outdoor[0] = Tile::Pasture;
    p.pastures.push(Pasture { cells: vec![(0, 0)], animals: None });
    assert_eq!(p.trim_animals([5, 1, 0, 0]), [4, 0, 0, 0]);
}

#[test]
fn gains_of_action_spaces() {
    let mut r = Resources::zero();
    ActionSpace::Logging.gain_resources(2, &mut r);
    assert_eq!(r.wood, 5);
    let mut s = Resources::zero();
    ActionSpace::Supplies.gain_resources(0, &mut s);
    assert_eq!((s.wood, s.stone, s.coal, s.food, s.gold), (1, 1, 1, 1, 2));

    let mut p = Player::new(0);
    p.indoor[0] = Tile::OreMine;
    ActionSpace::OreMining.apply_gains(1, &mut p);
    assert_eq!(p.resources.coal, 5);
    ActionSpace::Housework.apply_gains(0, &mut p);
    assert_eq!(p.dogs, 1);
    ActionSpace::SheepFarming.apply_gains(2, &mut p);
    assert_eq!(p.animals[3], 3);
}

#[test]
fn tile_placements_of_a_new_player() {
    let p = Player::new(2);
    let tunnels = p.tile_placements(TileGroup::Twin((Tile::Tunnel, Tile::Cave)));
    assert_eq!(tunnels.len(), 12);
    assert!(matches!(tunnels[0].0, Side::Indoor));
    let caves = p.tile_placements(TileGroup::Twin((Tile::Cave, Tile::Cave)));
    assert_eq!(caves.len(), 6);
    let clearings = p.tile_placements(TileGroup::Twin((Tile::Meadow, Tile::Field(0, 0))));
    assert_eq!(clearings.len(), 4);
    assert!(matches!(clearings[0].0, Side::Outdoor));
    let mines = p.tile_placements(TileGroup::Single(Tile::RubyMine));
    assert_eq!(mines.len(), 0);
}

#[test]
fn changed_cells_and_delta() {
    let p = Player::new(2);
    let mut b = p.indoor;
    b[3] = Tile::Tunnel;
    b[4] = Tile::Cave;
    let cells = changed_cells(&p.indoor, &b);
    assert_eq!(cells, vec![(0, 1), (1, 1)]);
    assert!(matches!(board_delta(&p.indoor, &b), TileGroup::Twin((Tile::Mountain, Tile::Mountain))));
}

#[test]
fn initial_moves_in_space_order() {
    let state = State::new(2);
    let children = state.children();
    assert_eq!(describe_move(&state, &children[0]), "Drift Mining (+1 stone)");
    assert_eq!(describe_move(&state, &children[1]), "Logging (+3 wood)");
    assert_eq!(describe_move(&state, &children[2]), "Wood Gathering (+1 wood)");
    assert_eq!(
        describe_move(&state, &children[4]),
        "Supplies (+1 wood, +1 stone, +1 coal, +1 food, +2 gold)"
    );
    assert_eq!(describe_move(&state, &children[6]), "Starting Player (+2 coal, +1 food)");
    // a space with nothing left to do passes the turn on
    assert_eq!(children[2].current_player, 1);
    assert!(matches!(children[2].pending.last(), Some(SubAction::SelectActionSpace)));
    // a space with a tile keeps only its first tile-laying candidate
    assert!(matches!(children[0].pending.last(), Some(SubAction::PlaceTile(_))));
    assert_eq!(children[0].current_player, 0);
}

#[test]
fn every_move_places_one_dwarf_and_keeps_the_other_player() {
    let state = State::new(3);
    for child in state.children() {
        let placed = child.players[0].dwarfs.iter().filter(|d| d.placed_on.is_some()).count();
        assert_eq!(placed, 1);
        assert!(child.players[1].dwarfs.iter().all(|d| d.placed_on.is_none()));
        assert_eq!(child.players[1].resources.food, 2);
        assert_eq!(child.round, 0);
    }
}

#[test]
fn trading_offers_pass_then_goods() {
    let state = trading_state(0, 2, 1);
    let children = state.children();
    // pass, one sheep, two sheep, one grain
    assert_eq!(children.len(), 4);
    assert!(matches!(children[0].pending.last(), Some(SubAction::FinishRound)));
    assert_eq!(children[1].players[0].resources.food, 1);
    assert_eq!(children[2].players[0].animals[3], 0);
    assert_eq!(children[2].players[0].resources.food, 2);
    assert_eq!(children[3].players[0].resources.wheat, 0);
    assert_eq!(describe_move(&state, &children[1]), "trade food (+1 food, -1 sheep)");
}

#[test]
fn no_trading_without_a_food_gap() {
    let state = trading_state(9, 2, 1);
    assert_eq!(state.children().len(), 1);
}

#[test]
fn finishing_the_round_feeds_and_moves_on() {
    let mut state = State::new(2);
    state.pending = vec![SubAction::FinishRound];
    state.players[1].resources.food = 0;
    let children = state.children();
    assert_eq!(children.len(), 1);
    let next = &children[0];
    assert_eq!(next.round, 1);
    assert_eq!(next.players[0].resources.begging, 2);
    assert_eq!(next.players[1].resources.begging, 4);
    assert!(matches!(next.pending.last(), Some(SubAction::SelectActionSpace)));
}

#[test]
fn a_finished_game_has_no_moves_and_a_winner() {
    let mut state = State::new(2);
    assert!(state.winner().is_none());
    state.round = 11;
    assert!(state.children().is_empty());
    // equal points: the last of the best
    assert_eq!(state.winner(), Some(1));
    state.players[0].resources.gold = 1;
    assert_eq!(state.winner(), Some(0));
    assert_eq!(state.num_players(), 2);
    assert_eq!(state.current_player(), 0);
}

#[test]
fn three_players_play_twelve_rounds() {
    assert_eq!(State::new(3).rounds(), 12);
    assert_eq!(State::new(2).rounds(), 11);
}

#[test]
fn random_move_is_a_move() {
    let state = State::new(2);
    let mut rng = StdRng::seed_from_u64(7);
    let descriptions: Vec<String> =
        state.children().iter().map(|c| describe_move(&state, c)).collect();
    for _ in 0..5 {
        let next = random_move(&state, &mut rng);
        let placed = next.players[0].dwarfs.iter().filter(|d| d.placed_on.is_some()).count();
        assert_eq!(placed, 1);
        assert!(descriptions.contains(&describe_move(&state, &next)));
    }
}

#[test]
fn tile_symbols() {
    assert_eq!(tile_symbol(Tile::Field(0, 0)), "Fd");
    assert_eq!(tile_symbol(Tile::Field(2, 0)), "Fw");
    assert_eq!(tile_symbol(Tile::Field(0, 1)), "Fv");
    assert_eq!(tile_symbol(Tile::Forest), "..");
    assert_eq!(tile_symbol(Tile::Mountain), "~~");
}

#[test]
fn resource_changes_in_order() {
    let mut a = Resources::zero();
    a.food = 5;
    a.wood = 1;
    let mut b = a;
    b.food = 2;
    b.gold = 3;
    b.begging = 2;
    b.vegetables = 12;
    assert_eq!(
        resource_delta_parts(&a, &b),
        vec!["-3 food", "+12 veg", "+3 gold", "+2 begging"]
    );
    assert!(resource_delta_parts(&a, &a).is_empty());
}

#[test]
fn farm_of_a_new_player() {
    let lines = farm_lines(&Player::new(2));
    assert_eq!(
        lines,
        vec![
            "    .. .. .. | ~~ ~~ ~~",
            "    .. .. .. | ~~ ~~ ~~",
            "    .. .. .. | Cv ~~ ~~",
            "    .. .. .. | Dw ~~ ~~",
            "    2 food",
        ]
    );
}

#[test]
fn harvest_and_feed_lines() {
    let before = Player::new(5);
    let mut after = Player::new(1);
    after.resources.wheat = 2;
    assert_eq!(harvest_text("Samuel", &before, &after), "Samuel +2 wheat");
    assert_eq!(harvest_text("Maria", &before, &before), "Maria +0");
    assert_eq!(feed_text("Samuel", &before, &after), "Samuel -4 food");
    assert_eq!(feed_text("Maria", &before, &before), "Maria -0");
    after.resources.begging = 3;
    after.resources.food = 5;
    assert_eq!(feed_text("Maria", &before, &after), "Maria +3 begging");
}

#[test]
fn harvest_keeps_points() {
    let mut p = Player::new(2);
    p.outdoor[0] = Tile::Field(2, 0);
    p.outdoor[1] = Tile::Field(0, 1);
    p.resources.wheat = 1;
    let before = p.points();
    p.harvest();
    assert_eq!(p.points(), before);
    assert_eq!(p.resources.wheat, 2);
}

#[test]
fn trimming_never_adds_animals() {
    let mut p = Player::new(2);
    p.outdoor[0] = Tile::ForestStable;
    p.outdoor[1] = Tile::Meadow;
    p.dogs = 1;
    let herd = [3, 4, 1, 5];
    let kept = p.trim_animals(herd);
    for i in 0..4 {
        assert!(kept[i] <= herd[i]);
    }
    // one boar in the forest stable, two sheep on the meadow with a dog,
    // two cattle in the dwelling
    assert_eq!(kept, [2, 1, 0, 2]);
}

#[test]
fn moves_keep_positions_valid() {
    let mut state = State::new(2);
    assert!(state.is_valid());
    for _ in 0..150 {
        if state.winner().is_some() {
            break;
        }
        let children = state.children();
        assert!(!children.is_empty());
        for child in &children {
            assert!(child.is_valid());
            assert!(child.round == state.round || child.round == state.round + 1);
        }
        state = children.into_iter().last().unwrap();
    }
}

#[test]
fn tally_counts_in_text_order() {
    let texts: Vec<String> = ["sow", "pasture (-2 wood)", "sow", "pasture", "place tile", "sow"]
        .iter()
        .map(|s| s.to_string())
        .collect();
    let (keys, counts) = tally(&texts);
    assert_eq!(keys, vec!["pasture", "pasture (-2 wood)", "place tile", "sow"]);
    assert_eq!(counts, vec![1, 1, 1, 3]);
    assert!(text_less(&"abc".to_string(), &"abd".to_string()));
    assert!(text_less(&"ab".to_string(), &"abc".to_string()));
    assert!(!text_less(&"b".to_string(), &"abc".to_string()));
    assert!(!text_less(&"abc".to_string(), &"abc".to_string()));
}

#[test]
fn describing_all_moves() {
    let state = State::new(2);
    let children = state.children();
    let all = describe_moves(&state, &children).unwrap();
    assert_eq!(all.len(), 13);
    assert_eq!(all[3], "Excavation (+1 stone)");
    // the end of a round cannot be described as a move
    let mut end = State::new(2);
    end.pending = vec![SubAction::FinishRound];
    let next = end.children();
    assert!(describe_moves(&end, &next).is_none());
}

#[test]
fn no_fourth_stable() {
    let mut state = State::new(2);
    state.players[0].resources.stone = 5;
    state.players[0].outdoor[0] = Tile::ForestStable;
    state.players[0].outdoor[1] = Tile::ForestStable;
    state.pending = vec![SubAction::Stable];
    // build none, or a stable on any of the ten forests left
    let children = state.children();
    assert_eq!(children.len(), 11);
    for child in &children {
        assert!(child.players[0].stable_count() <= 3);
    }
    state.players[0].outdoor[2] = Tile::ForestStable;
    assert_eq!(state.children().len(), 1);
}

#[test]
fn trading_stops_at_the_need() {
    let mut state = State::new(2);
    state.players[0].resources.food = 3;
    state.players[0].animals[0] = 3;
    state.pending = vec![SubAction::FinishRound, SubAction::TradeFood { player_idx: 0 }];
    let children = state.children();
    // pass, or one cow for three food: a second cow is not offered
    assert_eq!(children.len(), 2);
    assert_eq!(children[0].players[0].resources.food, 3);
    assert_eq!(children[1].players[0].resources.food, 6);
    assert_eq!(children[1].players[0].animals[0], 2);
    assert!(children[1].players[0].resources.food < state.players[0].food_needed() + 3);
}

#[test]
fn excavation_on_a_new_game() {
    let base = State::new(2);
    let cands = ActionSpace::Excavation.sub_actions(State::new(2), 0);
    assert_eq!(cands.len(), 3);
    assert_eq!(cands[0].1.len(), 1);
    assert!(matches!(
        cands[0].1[0],
        SubAction::PlaceTile(TileGroup::Twin((Tile::Tunnel, Tile::Cave)))
    ));
    assert_eq!(cands[1].1.len(), 1);
    assert!(matches!(
        cands[1].1[0],
        SubAction::PlaceTile(TileGroup::Twin((Tile::Cave, Tile::Cave)))
    ));
    assert!(cands[2].1.is_empty());
    for (c, _) in &cands {
        assert_eq!(c.players.len(), base.players.len());
        assert_eq!(c.players[0].resources, base.players[0].resources);
        assert_eq!(c.round, base.round);
        assert_eq!(c.current_player, base.current_player);
    }
}

#[test]
fn ore_mine_and_sheep_farming_on_a_new_game() {
    let ore = ActionSpace::OreMineConstruction.sub_actions(State::new(2), 0);
    assert_eq!(ore.len(), 2);
    assert_eq!(ore[0].1.len(), 2);
    assert!(matches!(
        ore[0].1[0],
        SubAction::ExpeditionPick {
            space: ActionSpace::OreMineConstruction,
            picks_remaining: 1,
            used_items: 0
        }
    ));
    assert!(matches!(
        ore[0].1[1],
        SubAction::PlaceTile(TileGroup::Twin((Tile::DeepTunnel, Tile::OreMine)))
    ));
    assert_eq!(ore[1].1.len(), 1);
    assert!(matches!(ore[1].1[0], SubAction::ExpeditionPick { picks_remaining: 1, .. }));

    let sheep = ActionSpace::SheepFarming.sub_actions(State::new(2), 0);
    assert_eq!(sheep.len(), 1);
    assert!(matches!(sheep[0].1[..], [SubAction::Stable, SubAction::Pasture]));
}

#[test]
fn no_players_no_next_placement() {
    let empty = State::new(0);
    assert!(empty.next_placement_player().is_none());
    let popped = State::new(0).pop_subaction();
    assert_eq!(popped.current_player, 0);
    assert_eq!(popped.pending.len(), 1);
    assert!(matches!(popped.pending[0], SubAction::SelectActionSpace));
}

#[test]
fn next_placement_wraps_round_the_table() {
    let mut state = State::new(3);
    state.current_player = 2;
    // every dwarf of player 0 is placed, so player 1 is next
    for d in state.players[0].dwarfs.iter_mut() {
        d.placed_on = Some(ActionSpace::Logging);
    }
    assert_eq!(state.next_placement_player(), Some(1));
    state.current_player = 1;
    assert_eq!(state.next_placement_player(), Some(2));
}

#[test]
fn sowing_has_a_move_exactly_when_options_exist() {
    let mut state = State::new(2);
    state.pending = vec![SubAction::Sow];
    // no field yet
    assert!(!state.has_children());
    assert!(state.sow_options(0).is_empty());
    state.players[0].outdoor[0] = Tile::Field(0, 0);
    state.players[0].resources.wheat = 1;
    assert!(state.has_children());
    assert!(!state.sow_options(0).is_empty());
    state.players[0].resources.wheat = 0;
    assert!(!state.has_children());
    assert!(state.sow_options(0).is_empty());
}

#[test]
fn overflowing_counts_are_caught_before_the_moves() {
    let mut state = State::new(2);
    assert!(state.moves_fit());
    // Logging would add three wood and more to a full stock
    state.players[0].resources.wood = usize::MAX - 1;
    assert!(!state.moves_fit());
    state.players[0].resources.wood = 0;
    assert!(state.moves_fit());
    // a finished game is scored only when every score fits an i32
    assert!(state.scores_fit());
    state.round = 11;
    assert!(state.scores_fit());
    state.players[1].resources.gold = usize::MAX;
    assert!(!state.players[1].points_fit());
    assert!(!state.scores_fit());
    // a finished game has no moves to overflow
    assert!(state.moves_fit());
}

#[test]
fn feeding_and_breeding_fit_checks() {
    let mut p = Player::new(2);
    assert!(p.feed_fits());
    assert!(p.breed_fits());
    assert!(p.harvest_fits());
    p.animals[3] = usize::MAX;
    assert!(!p.breed_fits());
    p.animals[3] = 1;
    assert!(p.breed_fits());
    p.resources.begging = usize::MAX;
    p.resources.food = 0;
    assert!(!p.feed_fits());
}

#[test]
fn trimming_keeps_the_best_assignment() {
    let mut p = Player::new(2);
    p.outdoor[0] = Tile::Pasture;
    p.outdoor[1] = Tile::Pasture;
    p.pastures.push(Pasture { cells: vec![(0, 0)], animals: None });
    p.pastures.push(Pasture { cells: vec![(1, 0)], animals: None });
    // one pasture for cattle, one for sheep, and the dwelling for the rest
    assert_eq!(p.trim_animals([3, 0, 0, 3]), [3, 0, 0, 3]);
    // six places in all: the first assignment that fills them wins
    assert_eq!(p.trim_animals([4, 0, 0, 4]), [4, 0, 0, 2]);
}

#[test]
fn trimming_twice_keeps_the_same_herd() {
    let mut p = Player::new(2);
    p.outdoor[0] = Tile::Pasture;
    p.outdoor[1] = Tile::Pasture;
    p.outdoor[2] = Tile::ForestStable;
    p.outdoor[3] = Tile::Meadow;
    p.dogs = 2;
    p.pastures.push(Pasture { cells: vec![(0, 0), (1, 0)], animals: None });
    for herd in [[4, 0, 0, 4], [9, 3, 2, 7], [0, 5, 5, 0], [1, 1, 1, 1]] {
        let once = p.trim_animals(herd);
        assert_eq!(p.trim_animals(once), once);
    }
}

#[test]
fn a_finished_game_has_no_moves() {
    let mut empty = State::new(0);
    empty.round = 12;
    assert!(empty.done());
    assert!(empty.children().is_empty());
    let mut two = State::new(2);
    two.round = 11;
    assert!(two.children().is_empty());
}
