# caverna

A verified move generator for a worker-placement farming game in the
style of Caverna, with a Monte Carlo tree search player on top.

Every player owns an outdoor board (forest, meadows, pastures, fields) and
an indoor board (mountain, tunnels, caves, mines, dwellings), places dwarfs
on action spaces, and plays the steps that an action space opens: laying
tiles, fencing, building stables, furnishing caves, sowing, forging weapons
and going on expeditions. At the end of each round the fields are
harvested, the players may trade goods for food, the families are fed,
the animals breed and the children grow up.

## Layout

- `src/` — the library, verified with Verus:
  - `board.rs`, `resources.rs`, `action.rs`: tiles and boards, goods and
    animals, action spaces.
  - `player.rs`: feeding, harvest, breeding and trimming of the herd, tile
    placements, points.
  - `state.rs`, `turn.rs`: game positions and every successor position
    (`State::children`), each function with a contract over a
    mathematical model (`StateView`).
  - `play.rs`: a random move, drawn with the `rand` crate.
  - `text.rs`, `describe.rs`, `tally.rs`: the text of moves, farms and
    round summaries.
  - `invariants.rs`, `farm_laws.rs`, `stable_law.rs`: laws proved of the
    rules — moves keep positions well formed and only the end of a round
    moves the round on, the action-space choice places exactly one dwarf, a
    running game has a move, trading stops at the food needed, the winner
    has the most points, no player ever has more than three stables,
    trimming never adds animals, keeps the largest part of a herd that the
    farm can house and changes nothing when done twice, the harvest keeps the
    crops and the points.

Arithmetic is exact: where a move would raise a count past its type's
largest value, the functions that make it say so in their `requires`, and
`State::moves_fit`, `State::scores_fit` and the `Player` checks
(`feed_fits`, `breed_fits`, `points_fit`, ...) test those conditions, so a
caller can refuse such a position before asking for its moves.
- `tests/`: tests of the library.
- `app/`: the program that plays a game between a tree-search player and a
  random player, and prints it.
