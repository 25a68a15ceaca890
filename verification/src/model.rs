//! The world as mathematics sees it, and what one day makes of it.
//!
//! Everything here is specification: the executable world of the module
//! `game` is held to these definitions.

use crate::animal::AnimalView;
use crate::census::{present, tally};
use crate::torus::DIRECTIONS;
use vstd::prelude::*;

verus! {

/// The display symbol of a cell that holds nothing.
pub const BLANK: char = ' ';

/// The display symbol of a cell on which a plant grows.
pub const PLANT_MARK: char = 'P';

/// The display symbol of a cell on which an animal stands.
pub const ANIMAL_MARK: char = 'A';

/// The energy that the founder starts with.
pub const FOUNDER_ENERGY: u32 = 1000;

/// No animal ever holds more energy than this: the largest of the founder's
/// energy, the energy of one plant and the reproduction threshold.
pub open spec fn energy_cap(plant_energy: nat, energy_to_reproduce: nat) -> nat {
    if plant_energy >= energy_to_reproduce && plant_energy >= FOUNDER_ENERGY {
        plant_energy
    } else if energy_to_reproduce >= FOUNDER_ENERGY {
        energy_to_reproduce
    } else {
        FOUNDER_ENERGY as nat
    }
}

/// The settings that a world can be made with: the grid has cells, the
/// forest fits on the grid and has cells if anything is to grow in it, and
/// the energy of an animal that eats always fits its counter.
pub open spec fn valid_settings(
    width: nat,
    height: nat,
    plant_energy: nat,
    energy_to_reproduce: nat,
    plants_per_day_forest: nat,
    forest_width: nat,
    forest_height: nat,
) -> bool {
    &&& width > 0
    &&& height > 0
    &&& forest_width <= width
    &&& forest_height <= height
    &&& plants_per_day_forest > 0 ==> forest_width > 0 && forest_height > 0
    &&& energy_cap(plant_energy, energy_to_reproduce) + plant_energy <= u32::MAX
}

/// One of `animals` stands on the cell `(x, y)`.
pub open spec fn occupied(animals: Seq<AnimalView>, x: int, y: int) -> bool {
    exists|i: int| 0 <= i < animals.len() && (#[trigger] animals[i]).x == x && animals[i].y == y
}

/// The animals that stand on a cell after one more has joined are those
/// that stood there before, and the one that joined if it stands there.
pub proof fn lemma_occupied_push(animals: Seq<AnimalView>, last: AnimalView, x: int, y: int)
    ensures
        occupied(animals.push(last), x, y) <==> occupied(animals, x, y) || (last.x == x && last.y
            == y),
{
    let longer = animals.push(last);
    if occupied(animals, x, y) {
        let i = choose|i: int|
            0 <= i < animals.len() && (#[trigger] animals[i]).x == x && animals[i].y == y;
        assert(longer[i].x == x && longer[i].y == y);
    }
    if last.x == x && last.y == y {
        assert(longer[animals.len() as int].x == x && longer[animals.len() as int].y == y);
    }
    if occupied(longer, x, y) {
        let i = choose|i: int|
            0 <= i < longer.len() && (#[trigger] longer[i]).x == x && longer[i].y == y;
        if i < animals.len() {
            assert(animals[i].x == x && animals[i].y == y);
        }
    }
}

/// `grid` has `height` rows of `width` cells each.
pub open spec fn shaped<T>(grid: Seq<Seq<T>>, width: nat, height: nat) -> bool {
    &&& grid.len() == height
    &&& forall|y: int| 0 <= y < height ==> (#[trigger] grid[y]).len() == width
}

/// `grid` with `value` in the cell `(x, y)`.
pub open spec fn with_cell<T>(grid: Seq<Seq<T>>, x: int, y: int, value: T) -> Seq<Seq<T>> {
    grid.update(y, grid[y].update(x, value))
}

/// `field` with the animal mark on every cell that one of `animals` stands
/// on.
pub open spec fn marked(field: Seq<Seq<char>>, animals: Seq<AnimalView>) -> Seq<Seq<char>> {
    Seq::new(
        field.len(),
        |y: int|
            Seq::new(
                field[y].len(),
                |x: int|
                    if occupied(animals, x, y) {
                        ANIMAL_MARK
                    } else {
                        field[y][x]
                    },
            ),
    )
}

/// A world: its settings, the plants of every cell, the display buffer and
/// the live animals in the order in which they were created.  Both grids
/// are indexed by row, then by column.
pub struct GameView {
    /// The number of columns of the grid.
    pub width: nat,
    /// The number of rows of the grid.
    pub height: nat,
    /// The energy that an animal gets from one unit of a plant.
    pub plant_energy: nat,
    /// The energy above which an animal breeds.
    pub energy_to_reproduce: nat,
    /// The number of plants that grow anywhere on the grid each day.
    pub plants_per_day: nat,
    /// The number of plants that grow in the forest each day.
    pub plants_per_day_forest: nat,
    /// The number of columns of the forest.
    pub forest_width: nat,
    /// The number of rows of the forest.
    pub forest_height: nat,
    /// The amount of food on every cell.
    pub plants: Seq<Seq<nat>>,
    /// The symbol that the display shows for every cell.
    pub field: Seq<Seq<char>>,
    /// The live animals.
    pub animals: Seq<AnimalView>,
}

impl GameView {
    /// The settings are valid, both grids cover the whole grid, and every
    /// animal is well formed, stands on the grid and holds no more energy
    /// than the cap.
    pub open spec fn wf(self) -> bool {
        &&& valid_settings(
            self.width,
            self.height,
            self.plant_energy,
            self.energy_to_reproduce,
            self.plants_per_day_forest,
            self.forest_width,
            self.forest_height,
        )
        &&& self.covers_grid()
        &&& forall|i: int| 0 <= i < self.animals.len() ==> self.admits(#[trigger] self.animals[i])
    }

    /// The plants and the display buffer have one cell for every cell of
    /// the grid.
    pub open spec fn covers_grid(self) -> bool {
        &&& shaped(self.plants, self.width, self.height)
        &&& shaped(self.field, self.width, self.height)
    }

    /// `animal` can live in this world.
    pub open spec fn admits(self, animal: AnimalView) -> bool {
        &&& animal.wf()
        &&& animal.on_grid(self.width, self.height)
        &&& animal.energy <= energy_cap(self.plant_energy, self.energy_to_reproduce)
    }

    /// The cell `(x, y)` is on the grid.
    pub open spec fn on_grid(self, x: int, y: int) -> bool {
        &&& 0 <= x < self.width
        &&& 0 <= y < self.height
    }

    /// This world and `other` have the same settings.
    pub open spec fn same_settings(self, other: GameView) -> bool {
        other == (GameView {
            plants: other.plants,
            field: other.field,
            animals: other.animals,
            ..self
        })
    }

    /// This world and `other` have the same settings and the same animals.
    pub open spec fn same_population(self, other: GameView) -> bool {
        other == (GameView { plants: other.plants, field: other.field, ..self })
    }

    /// The cell `(x, y)` is in the forest: the rectangle of `forest_width`
    /// by `forest_height` cells in the middle of the grid.
    pub open spec fn in_forest(self, x: int, y: int) -> bool {
        let left = self.width / 2 - self.forest_width / 2;
        let top = self.height / 2 - self.forest_height / 2;
        &&& left <= x < left + self.forest_width
        &&& top <= y < top + self.forest_height
    }

    /// The symbol that the plants of the cell `(x, y)` call for.
    pub open spec fn plant_mark(self, x: int, y: int) -> char {
        if self.plants[y][x] > 0 {
            PLANT_MARK
        } else {
            BLANK
        }
    }

    /// The cell `(x, y)` shows its plants.
    pub open spec fn shows_plants_at(self, x: int, y: int) -> bool {
        self.field[y][x] == self.plant_mark(x, y)
    }

    /// Every cell on which no animal stands shows its plants.
    pub open spec fn shows_plants(self) -> bool {
        forall|x: int, y: int|
            self.on_grid(x, y) && !occupied(self.animals, x, y) ==> #[trigger] self.shows_plants_at(
                x,
                y,
            )
    }

    /// Every cell on which no animal stands, and none of `others` either,
    /// shows its plants.
    pub open spec fn shows_plants_apart_from(self, others: Seq<AnimalView>) -> bool {
        forall|x: int, y: int|
            self.on_grid(x, y) && !occupied(self.animals, x, y) && !occupied(others, x, y)
                ==> #[trigger] self.shows_plants_at(x, y)
    }

    /// The display is in step with the world: a cell shows the animal mark
    /// exactly if an animal stands on it, and its plants otherwise.
    pub open spec fn display_synced(self) -> bool {
        forall|x: int, y: int|
            self.on_grid(x, y) ==> #[trigger] self.field[y][x] == if occupied(self.animals, x, y) {
                ANIMAL_MARK
            } else {
                self.plant_mark(x, y)
            }
    }

    /// Every cell can take the plants of one more day.
    pub open spec fn room_to_grow(self) -> bool {
        forall|x: int, y: int|
            self.on_grid(x, y) ==> (#[trigger] self.plants[y][x]) + self.plants_per_day
                + self.plants_per_day_forest <= u32::MAX
    }

    /// The world after one more plant has grown on the cell `(x, y)`: the
    /// first plant of a cell shows on the display.
    pub open spec fn with_plant_at(self, x: int, y: int) -> GameView {
        let amount = self.plants[y][x] + 1;
        GameView {
            plants: with_cell(self.plants, x, y, amount),
            field: if amount == 1 {
                with_cell(self.field, x, y, PLANT_MARK)
            } else {
                self.field
            },
            ..self
        }
    }

    /// The world after one plant has grown on each of `spots`, in order.
    pub open spec fn sown(self, spots: Seq<(int, int)>) -> GameView
        decreases spots.len(),
    {
        if spots.len() == 0 {
            self
        } else {
            self.sown(spots.drop_last()).with_plant_at(spots.last().0, spots.last().1)
        }
    }

    /// `spots` can be the places where the plants of one day grow: first
    /// `plants_per_day` cells anywhere on the grid, then
    /// `plants_per_day_forest` cells in the forest.
    pub open spec fn can_sow(self, spots: Seq<(int, int)>) -> bool {
        &&& spots.len() == self.plants_per_day + self.plants_per_day_forest
        &&& forall|k: int|
            0 <= k < spots.len() ==> self.on_grid((#[trigger] spots[k]).0, spots[k].1)
        &&& forall|k: int|
            self.plants_per_day <= k < spots.len() ==> self.in_forest(
                (#[trigger] spots[k]).0,
                spots[k].1,
            )
    }

    /// `later` is this world after the plants of one day have grown.
    pub open spec fn grows_to(self, later: GameView) -> bool {
        exists|spots: Seq<(int, int)>| #[trigger] self.can_sow(spots) && later == self.sown(spots)
    }

    /// The world with the animal marks taken off the display: every cell on
    /// which an animal stands shows its plants.
    pub open spec fn uncovered(self) -> GameView {
        GameView {
            field: Seq::new(
                self.field.len(),
                |y: int|
                    Seq::new(
                        self.field[y].len(),
                        |x: int|
                            if occupied(self.animals, x, y) {
                                self.plant_mark(x, y)
                            } else {
                                self.field[y][x]
                            },
                    ),
            ),
            ..self
        }
    }

    /// The world with the animal mark on every cell on which an animal
    /// stands.
    pub open spec fn covered(self) -> GameView {
        GameView { field: marked(self.field, self.animals), ..self }
    }

    /// The world after an animal has tried to eat on the cell `(x, y)`:
    /// one plant is gone if there was one, and the display shows it if that
    /// was the last.
    pub open spec fn with_bite_at(self, x: int, y: int) -> GameView {
        if self.plants[y][x] > 0 {
            let amount = (self.plants[y][x] - 1) as nat;
            GameView {
                plants: with_cell(self.plants, x, y, amount),
                field: if amount == 0 {
                    with_cell(self.field, x, y, BLANK)
                } else {
                    self.field
                },
                ..self
            }
        } else {
            self
        }
    }

    /// The world after the first `count` animals have tried to eat, each
    /// where it stands.
    pub open spec fn after_meals(self, count: nat) -> GameView
        decreases count,
    {
        if count == 0 {
            self
        } else {
            let eater = self.animals[count - 1];
            self.after_meals((count - 1) as nat).with_bite_at(eater.x as int, eater.y as int)
        }
    }

    /// The energy that animal `i` gets from its meal: it eats after the
    /// animals before it.
    pub open spec fn meal(self, i: int) -> nat {
        let eater = self.animals[i];
        if self.after_meals(i as nat).plants[eater.y as int][eater.x as int] > 0 {
            self.plant_energy
        } else {
            0
        }
    }

    /// Animal `i` does not live through the day.
    pub open spec fn dies(self, i: int) -> bool {
        self.animals[i].energy == 0
    }

    /// The energy of animal `i` after it has spent the day's unit and taken
    /// in its meal.
    pub open spec fn fed_energy(self, i: int) -> nat {
        (self.animals[i].energy - 1 + self.meal(i)) as nat
    }

    /// Animal `i` has a child today.
    pub open spec fn breeds(self, i: int) -> bool {
        &&& !self.dies(i)
        &&& self.fed_energy(i) > self.energy_to_reproduce
    }

    /// The number of animals that do not live through the day.
    pub open spec fn deaths(self) -> nat {
        tally(Seq::new(self.animals.len(), |i: int| self.dies(i)))
    }

    /// The number of animals that are born today.
    pub open spec fn births(self) -> nat {
        tally(Seq::new(self.animals.len(), |i: int| self.breeds(i)))
    }

    /// `later` and `child` can be what the day makes of animal `i`.  An
    /// animal without energy dies and leaves nothing.  Any other animal
    /// spends one unit of energy, takes in its meal and moves one step; if
    /// it then has more energy than the threshold, it gives half of it,
    /// rounded down, to a child.  Only the direction that the animal and
    /// the child choose and the gene that mutates in the child are open.
    pub open spec fn fate(
        self,
        i: int,
        later: Option<AnimalView>,
        child: Option<AnimalView>,
    ) -> bool {
        if self.dies(i) {
            later is None && child is None
        } else {
            let fed = self.fed_energy(i);
            let arrived = self.animals[i].with_energy(fed).stepped(self.width, self.height);
            &&& later is Some
            &&& later->0.direction < DIRECTIONS
            &&& if self.breeds(i) {
                &&& later->0 == arrived.with_energy((fed - fed / 2) as nat).facing(
                    later->0.direction,
                )
                &&& child is Some
                &&& child->0.wf()
                &&& child->0.is_child_of(arrived, fed / 2)
            } else {
                &&& later->0 == arrived.facing(later->0.direction)
                &&& child is None
            }
        }
    }

    /// The world that the fates `laters` and `children` of its animals
    /// leave, before the animals are drawn on the display.
    pub open spec fn fated(
        self,
        laters: Seq<Option<AnimalView>>,
        children: Seq<Option<AnimalView>>,
    ) -> GameView {
        GameView {
            animals: present(laters) + present(children),
            ..self.uncovered().after_meals(self.animals.len())
        }
    }

    /// `after` is this world after every animal has had its day, where
    /// `laters` and `children` say what became of each animal: the plants
    /// are those that the meals left, the animals are the survivors in
    /// their old order followed by the children in the order of their
    /// parents, and the display shows the animals over the plants.
    pub open spec fn updates_with(
        self,
        laters: Seq<Option<AnimalView>>,
        children: Seq<Option<AnimalView>>,
        after: GameView,
    ) -> bool {
        &&& laters.len() == self.animals.len()
        &&& children.len() == self.animals.len()
        &&& forall|i: int|
            0 <= i < self.animals.len() ==> self.fate(i, #[trigger] laters[i], children[i])
        &&& after == self.fated(laters, children).covered()
    }

    /// `after` is this world after every animal has had its day.
    pub open spec fn updates_to(self, after: GameView) -> bool {
        exists|laters: Seq<Option<AnimalView>>, children: Seq<Option<AnimalView>>| #[trigger]
            self.updates_with(laters, children, after)
    }

    /// `after` is this world one day later: first the plants grow, then the
    /// animals have their day.
    pub open spec fn advances_to(self, after: GameView) -> bool {
        exists|grown: GameView| #[trigger] self.grows_to(grown) && grown.updates_to(after)
    }
}

/// What holds of the days of every well-formed world.
impl GameView {
    /// Plants that grow on the grid change neither the settings nor the
    /// animals, leave the grids in shape, add at most one plant per spot to
    /// any cell and take none away, and leave every cell that showed its
    /// plants showing them.
    pub proof fn lemma_sown(self, spots: Seq<(int, int)>)
        requires
            self.covers_grid(),
            forall|k: int|
                0 <= k < spots.len() ==> self.on_grid((#[trigger] spots[k]).0, spots[k].1),
        ensures
            self.same_population(self.sown(spots)),
            self.sown(spots).covers_grid(),
            forall|x: int, y: int|
                self.on_grid(x, y) ==> self.plants[y][x] <= (#[trigger] self.sown(
                    spots,
                ).plants[y][x]) <= self.plants[y][x] + spots.len(),
            forall|x: int, y: int|
                self.on_grid(x, y) && self.shows_plants_at(x, y) ==> #[trigger] self.sown(
                    spots,
                ).shows_plants_at(x, y),
        decreases spots.len(),
    {
        if spots.len() > 0 {
            let before = self.sown(spots.drop_last());
            let (sx, sy) = spots.last();
            self.lemma_sown(spots.drop_last());
            assert(self.on_grid(spots[spots.len() - 1].0, spots[spots.len() - 1].1));
            let after = before.with_plant_at(sx, sy);
            assert(after == self.sown(spots));
            assert(before.plants[sy].len() == self.width);
            assert(before.field[sy].len() == self.width);
            assert forall|x: int, y: int| self.on_grid(x, y) implies self.plants[y][x] <= (
            #[trigger] after.plants[y][x]) <= self.plants[y][x] + spots.len() by {
                assert(self.plants[y][x] <= before.plants[y][x] <= self.plants[y][x] + spots.len()
                    - 1);
            }
            assert forall|x: int, y: int|
                self.on_grid(x, y) && self.shows_plants_at(x, y) implies #[trigger]
                after.shows_plants_at(x, y) by {
                assert(before.shows_plants_at(x, y));
                assert(self.plants[y][x] <= before.plants[y][x]);
            }
        }
    }

    /// The plants of one day leave a well-formed world well formed, with
    /// the same settings and animals.  No cell loses a plant, and none
    /// gains more than grow in a day.  Every cell that showed its plants
    /// still shows them.
    pub proof fn lemma_growth(self, later: GameView)
        requires
            self.wf(),
            self.grows_to(later),
        ensures
            later.wf(),
            self.same_population(later),
            forall|x: int, y: int|
                self.on_grid(x, y) ==> self.plants[y][x] <= (#[trigger] later.plants[y][x])
                    <= self.plants[y][x] + self.plants_per_day + self.plants_per_day_forest,
            forall|x: int, y: int|
                self.on_grid(x, y) && self.shows_plants_at(x, y) ==> #[trigger]
                later.shows_plants_at(x, y),
            self.shows_plants() ==> later.shows_plants(),
    {
        let spots = choose|spots: Seq<(int, int)>| #[trigger]
            self.can_sow(spots) && later == self.sown(spots);
        self.lemma_sown(spots);
        assert forall|i: int| 0 <= i < later.animals.len() implies later.admits(
            #[trigger] later.animals[i],
        ) by {
            assert(self.admits(self.animals[i]));
        }
        if self.shows_plants() {
            assert forall|x: int, y: int|
                later.on_grid(x, y) && !occupied(later.animals, x, y) implies #[trigger]
                later.shows_plants_at(x, y) by {
                assert(self.shows_plants_at(x, y));
            }
        }
    }

    /// Taking the animal marks off the display changes nothing but the
    /// display.  Afterwards every cell on which an animal stands shows its
    /// plants, and every other cell shows what it showed.
    pub proof fn lemma_uncovered(self)
        requires
            self.wf(),
        ensures
            self.uncovered().wf(),
            self.uncovered().plants == self.plants,
            self.same_population(self.uncovered()),
            forall|x: int, y: int|
                self.on_grid(x, y) ==> #[trigger] self.uncovered().field[y][x] == if occupied(
                    self.animals,
                    x,
                    y,
                ) {
                    self.plant_mark(x, y)
                } else {
                    self.field[y][x]
                },
    {
        let bare = self.uncovered();
        assert forall|i: int| 0 <= i < bare.animals.len() implies bare.admits(
            #[trigger] bare.animals[i],
        ) by {
            assert(self.admits(self.animals[i]));
        }
        assert forall|x: int, y: int| self.on_grid(x, y) implies #[trigger] bare.field[y][x]
            == if occupied(self.animals, x, y) {
            self.plant_mark(x, y)
        } else {
            self.field[y][x]
        } by {
            assert(self.field[y].len() == self.width);
        }
    }

    /// Meals change neither the settings nor the animals, leave the grids
    /// in shape and add no plant.  Every cell that showed its plants still
    /// shows them, and a cell on which none of the eaters stands is as it
    /// was.
    pub proof fn lemma_after_meals(self, count: nat)
        requires
            self.wf(),
            count <= self.animals.len(),
        ensures
            self.same_population(self.after_meals(count)),
            self.after_meals(count).covers_grid(),
            forall|x: int, y: int|
                self.on_grid(x, y) ==> (#[trigger] self.after_meals(count).plants[y][x])
                    <= self.plants[y][x],
            forall|x: int, y: int|
                self.on_grid(x, y) && self.shows_plants_at(x, y) ==> #[trigger] self.after_meals(
                    count,
                ).shows_plants_at(x, y),
            forall|x: int, y: int|
                self.on_grid(x, y) && !occupied(self.animals.take(count as int), x, y) ==> {
                    &&& #[trigger] self.after_meals(count).field[y][x] == self.field[y][x]
                    &&& self.after_meals(count).plants[y][x] == self.plants[y][x]
                },
        decreases count,
    {
        if count > 0 {
            let before = self.after_meals((count - 1) as nat);
            let eater = self.animals[count - 1];
            let after = before.with_bite_at(eater.x as int, eater.y as int);
            self.lemma_after_meals((count - 1) as nat);
            assert(self.admits(eater));
            assert(after == self.after_meals(count));
            assert(before.plants[eater.y as int].len() == self.width);
            assert(before.field[eater.y as int].len() == self.width);
            assert(self.animals.take(count as int) =~= self.animals.take(count - 1).push(eater));
            assert forall|x: int, y: int| self.on_grid(x, y) implies (#[trigger] after.plants[y][x])
                <= self.plants[y][x] by {
                assert(before.plants[y][x] <= self.plants[y][x]);
            }
            assert forall|x: int, y: int|
                self.on_grid(x, y) && self.shows_plants_at(x, y) implies #[trigger]
                after.shows_plants_at(x, y) by {
                assert(before.shows_plants_at(x, y));
            }
            assert forall|x: int, y: int|
                self.on_grid(x, y) && !occupied(self.animals.take(count as int), x, y) implies {
                &&& #[trigger] after.field[y][x] == self.field[y][x]
                &&& after.plants[y][x] == self.plants[y][x]
            } by {
                lemma_occupied_push(self.animals.take(count - 1), eater, x, y);
                assert(before.field[y][x] == self.field[y][x]);
            }
        }
    }

    /// What the animals eat does not depend on the display.
    pub proof fn lemma_meals_ignore_display(self, other: GameView, count: nat)
        requires
            self.plants == other.plants,
            self.animals == other.animals,
        ensures
            self.after_meals(count).plants == other.after_meals(count).plants,
        decreases count,
    {
        if count > 0 {
            self.lemma_meals_ignore_display(other, (count - 1) as nat);
        }
    }

    /// Every animal that a day leaves or brings can live in the world.
    pub proof fn lemma_fate_admitted(
        self,
        i: int,
        later: Option<AnimalView>,
        child: Option<AnimalView>,
    )
        requires
            self.wf(),
            0 <= i < self.animals.len(),
            self.fate(i, later, child),
        ensures
            later is Some ==> self.admits(later->0),
            child is Some ==> self.admits(child->0),
    {
        let animal = self.animals[i];
        assert(self.admits(animal));
        if !self.dies(i) {
            animal.with_energy(self.fed_energy(i)).lemma_step_wraps_around(self.width, self.height);
        }
    }

    /// The fates of the animals of a well-formed world leave a well-formed
    /// world with the same settings, in which no plant has grown.
    pub proof fn lemma_fated(
        self,
        laters: Seq<Option<AnimalView>>,
        children: Seq<Option<AnimalView>>,
    )
        requires
            self.wf(),
            laters.len() == self.animals.len(),
            children.len() == self.animals.len(),
            forall|i: int|
                0 <= i < self.animals.len() ==> self.fate(i, #[trigger] laters[i], children[i]),
        ensures
            self.fated(laters, children).wf(),
            self.same_settings(self.fated(laters, children)),
            forall|x: int, y: int|
                self.on_grid(x, y) ==> (#[trigger] self.fated(laters, children).plants[y][x])
                    <= self.plants[y][x],
    {
        let after = self.fated(laters, children);
        let bare = self.uncovered();
        self.lemma_uncovered();
        bare.lemma_after_meals(self.animals.len());
        let survivors = present(laters);
        let newborn = present(children);
        assert forall|k: int| 0 <= k < after.animals.len() implies after.admits(
            #[trigger] after.animals[k],
        ) by {
            if k < survivors.len() {
                crate::census::lemma_present_origin(laters, k);
                let i = choose|i: int|
                    0 <= i < laters.len() && #[trigger] laters[i] == Some(survivors[k]);
                self.lemma_fate_admitted(i, laters[i], children[i]);
            } else {
                crate::census::lemma_present_origin(children, k - survivors.len());
                let i = choose|i: int|
                    0 <= i < children.len() && #[trigger] children[i] == Some(
                        newborn[k - survivors.len()],
                    );
                assert(self.fate(i, laters[i], children[i]));
                self.lemma_fate_admitted(i, laters[i], children[i]);
            }
        }
    }

    /// The day of the animals leaves a well-formed world well formed, with
    /// the same settings, and lets no plant grow.
    pub proof fn lemma_update_keeps_wf(self, after: GameView)
        requires
            self.wf(),
            self.updates_to(after),
        ensures
            after.wf(),
            self.same_settings(after),
            forall|x: int, y: int|
                self.on_grid(x, y) ==> (#[trigger] after.plants[y][x]) <= self.plants[y][x],
    {
        let (laters, children) = choose|
            laters: Seq<Option<AnimalView>>,
            children: Seq<Option<AnimalView>>,
        | #[trigger] self.updates_with(laters, children, after);
        let fated = self.fated(laters, children);
        self.lemma_fated(laters, children);
        assert forall|y: int| 0 <= y < after.height implies (#[trigger] after.field[y]).len()
            == after.width by {
            assert(fated.field[y].len() == self.width);
        }
        assert forall|k: int| 0 <= k < after.animals.len() implies after.admits(
            #[trigger] after.animals[k],
        ) by {
            assert(fated.admits(fated.animals[k]));
        }
    }

    /// The number of animals after their day is the number before it, less
    /// those that died, plus those that were born.  No more die than there
    /// are, and only survivors have children.
    pub proof fn lemma_population(self, after: GameView)
        requires
            self.updates_to(after),
        ensures
            after.animals.len() == self.animals.len() - self.deaths() + self.births(),
            self.deaths() <= self.animals.len(),
            self.births() <= self.animals.len() - self.deaths(),
    {
        let (laters, children) = choose|
            laters: Seq<Option<AnimalView>>,
            children: Seq<Option<AnimalView>>,
        | #[trigger] self.updates_with(laters, children, after);
        let count = self.animals.len();
        let dying = Seq::new(count, |i: int| self.dies(i));
        let living = Seq::new(count, |i: int| !self.dies(i));
        let breeding = Seq::new(count, |i: int| self.breeds(i));
        assert forall|i: int| 0 <= i < count implies (#[trigger] laters[i] is Some)
            == living[i] by {
            assert(self.fate(i, laters[i], children[i]));
        }
        assert forall|i: int| 0 <= i < count implies (#[trigger] children[i] is Some)
            == breeding[i] by {
            assert(self.fate(i, laters[i], children[i]));
        }
        crate::census::lemma_present_len(laters, living);
        crate::census::lemma_present_len(children, breeding);
        crate::census::lemma_tally_complement(dying, living);
        crate::census::lemma_tally_monotone(breeding, living);
    }

    /// After the day of the animals the display is in step with the world
    /// exactly if every cell on which no animal stood before and none
    /// stands now showed its plants: those are the cells that the day does
    /// not draw.
    pub proof fn lemma_update_syncs_display(self, after: GameView)
        requires
            self.wf(),
            self.updates_to(after),
        ensures
            after.display_synced() <==> self.shows_plants_apart_from(after.animals),
    {
        let (laters, children) = choose|
            laters: Seq<Option<AnimalView>>,
            children: Seq<Option<AnimalView>>,
        | #[trigger] self.updates_with(laters, children, after);
        let count = self.animals.len();
        let bare = self.uncovered();
        let fed = bare.after_meals(count);
        self.lemma_uncovered();
        bare.lemma_after_meals(count);
        assert(bare.animals.take(count as int) =~= self.animals);
        if self.shows_plants_apart_from(after.animals) {
            assert forall|x: int, y: int| after.on_grid(x, y) implies #[trigger] after.field[y][x]
                == if occupied(after.animals, x, y) {
                ANIMAL_MARK
            } else {
                after.plant_mark(x, y)
            } by {
                assert(fed.field[y].len() == self.width);
                if !occupied(after.animals, x, y) {
                    if !occupied(self.animals, x, y) {
                        assert(self.shows_plants_at(x, y));
                    }
                    assert(bare.field[y][x] == bare.plant_mark(x, y));
                    assert(bare.shows_plants_at(x, y));
                    assert(fed.shows_plants_at(x, y));
                }
            }
        }
        if after.display_synced() {
            assert forall|x: int, y: int|
                self.on_grid(x, y) && !occupied(self.animals, x, y) && !occupied(
                    after.animals,
                    x,
                    y,
                ) implies #[trigger] self.shows_plants_at(x, y) by {
                assert(fed.field[y].len() == self.width);
                assert(bare.field[y][x] == self.field[y][x]);
                assert(fed.field[y][x] == bare.field[y][x]);
                assert(after.field[y][x] == after.plant_mark(x, y));
            }
        }
    }

    /// Over a whole day the number of animals is the number before it, less
    /// those that had no energy left, plus those that are born once the
    /// plants of the day have grown: plants that grow kill no animal.
    pub proof fn lemma_day_population(self, grown: GameView, after: GameView)
        requires
            self.wf(),
            self.grows_to(grown),
            grown.updates_to(after),
        ensures
            grown.deaths() == self.deaths(),
            after.animals.len() == self.animals.len() - self.deaths() + grown.births(),
            self.deaths() <= self.animals.len(),
            grown.births() <= self.animals.len() - self.deaths(),
    {
        self.lemma_growth(grown);
        grown.lemma_population(after);
        assert(Seq::new(grown.animals.len(), |i: int| grown.dies(i)) =~= Seq::new(
            self.animals.len(),
            |i: int| self.dies(i),
        ));
    }

    /// One day leaves a well-formed world well formed and its settings as
    /// they were.  The animals that did not die are still there, each with
    /// at most one child.  No cell gains more plants than grow in a day.
    /// The display is in step with the world afterwards, if every cell on
    /// which no animal stood before and none stands now showed its plants.
    pub proof fn lemma_day(self, after: GameView)
        requires
            self.wf(),
            self.advances_to(after),
        ensures
            after.wf(),
            self.same_settings(after),
            self.deaths() <= self.animals.len(),
            self.animals.len() - self.deaths() <= after.animals.len() <= 2 * (self.animals.len()
                - self.deaths()),
            forall|x: int, y: int|
                self.on_grid(x, y) ==> (#[trigger] after.plants[y][x]) <= self.plants[y][x]
                    + self.plants_per_day + self.plants_per_day_forest,
            self.shows_plants_apart_from(after.animals) ==> after.display_synced(),
    {
        let grown = choose|grown: GameView| #[trigger]
            self.grows_to(grown) && grown.updates_to(after);
        self.lemma_growth(grown);
        self.lemma_day_population(grown, after);
        grown.lemma_update_keeps_wf(after);
        grown.lemma_update_syncs_display(after);
        if self.shows_plants_apart_from(after.animals) {
            assert forall|x: int, y: int|
                grown.on_grid(x, y) && !occupied(grown.animals, x, y) && !occupied(
                    after.animals,
                    x,
                    y,
                ) implies #[trigger] grown.shows_plants_at(x, y) by {
                assert(self.shows_plants_at(x, y));
            }
        }
        assert forall|x: int, y: int| self.on_grid(x, y) implies (#[trigger] after.plants[y][x])
            <= self.plants[y][x] + self.plants_per_day + self.plants_per_day_forest by {
            assert(grown.plants[y][x] <= self.plants[y][x] + self.plants_per_day
                + self.plants_per_day_forest);
        }
    }

    /// A world in which every cell without an animal shows its plants is in
    /// order whatever becomes of its animals, and a display that is in step
    /// with the world shows the plants of every cell without an animal: a
    /// world that starts in order stays in order day after day.
    pub proof fn lemma_display_stays_in_order(self, others: Seq<AnimalView>)
        ensures
            self.shows_plants() ==> self.shows_plants_apart_from(others),
            self.display_synced() ==> self.shows_plants(),
    {
        if self.display_synced() {
            assert forall|x: int, y: int|
                self.on_grid(x, y) && !occupied(self.animals, x, y) implies #[trigger]
                self.shows_plants_at(x, y) by {
                assert(self.field[y][x] == self.plant_mark(x, y));
            }
        }
    }
}

} // verus!
