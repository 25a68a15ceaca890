//! The world: a grid of plants, the animals that live on it, and the display
//! buffer that shows both.

use crate::animal::{Animal, AnimalView};
use crate::census::{
    lemma_filled_between_gaps, lemma_lists_gaps_push, lemma_present_prefix,
    lemma_present_skip_one, lists_gaps, present,
};
use crate::chance::random_in_range;
use crate::coordinate::Coordinate;
use crate::model::{
    lemma_occupied_push, occupied, shaped, valid_settings, with_cell, GameView, ANIMAL_MARK,
    BLANK, FOUNDER_ENERGY, PLANT_MARK,
};
use crate::plant::Plant;
use vstd::prelude::*;

verus! {

/// A world and its settings.
pub struct Game {
    width: u32,
    height: u32,
    plant_energy: u32,
    energy_to_reproduce: u32,
    plants_per_day: u32,
    plants_per_day_forest: u32,
    forest_width: u32,
    forest_height: u32,
    /// The display buffer: one symbol per cell, by row.
    field: Vec<Vec<char>>,
    /// The plants of every cell, by row.
    plants: Vec<Vec<Plant>>,
    /// The live animals, in the order in which they were created.
    animals: Vec<Animal>,
}

impl View for Game {
    type V = GameView;

    closed spec fn view(&self) -> GameView {
        GameView {
            width: self.width as nat,
            height: self.height as nat,
            plant_energy: self.plant_energy as nat,
            energy_to_reproduce: self.energy_to_reproduce as nat,
            plants_per_day: self.plants_per_day as nat,
            plants_per_day_forest: self.plants_per_day_forest as nat,
            forest_width: self.forest_width as nat,
            forest_height: self.forest_height as nat,
            plants: Seq::new(
                self.plants@.len(),
                |y: int| Seq::new(self.plants@[y]@.len(), |x: int| self.plants@[y]@[x]@),
            ),
            field: Seq::new(self.field@.len(), |y: int| self.field@[y]@),
            animals: Seq::new(self.animals@.len(), |i: int| self.animals@[i]@),
        }
    }
}

impl Game {
    /// The invariant of every world: see [`GameView::wf`].
    pub open spec fn wf(&self) -> bool {
        self@.wf()
    }

    /// Creates a world of `width` by `height` cells on which nothing grows
    /// yet, with one founder in the middle.
    pub fn new(
        width: u32,
        height: u32,
        plant_energy: u32,
        energy_to_reproduce: u32,
        plants_per_day: u32,
        plants_per_day_forest: u32,
        forest_width: u32,
        forest_height: u32,
    ) -> (game: Game)
        requires
            valid_settings(
                width as nat,
                height as nat,
                plant_energy as nat,
                energy_to_reproduce as nat,
                plants_per_day_forest as nat,
                forest_width as nat,
                forest_height as nat,
            ),
        ensures
            game.wf(),
            game@.width == width,
            game@.height == height,
            game@.plant_energy == plant_energy,
            game@.energy_to_reproduce == energy_to_reproduce,
            game@.plants_per_day == plants_per_day,
            game@.plants_per_day_forest == plants_per_day_forest,
            game@.forest_width == forest_width,
            game@.forest_height == forest_height,
            game@.plants == Seq::new(height as nat, |y: int| Seq::new(width as nat, |x: int| 0nat)),
            game@.field == Seq::new(height as nat, |y: int| Seq::new(width as nat, |x: int| BLANK)),
            game@.animals.len() == 1,
            game@.animals[0].x == width / 2,
            game@.animals[0].y == height / 2,
            game@.animals[0].energy == FOUNDER_ENERGY,
            game@.shows_plants(),
    {
        let mut s = Game {
            width: width,
            height: height,
            plant_energy: plant_energy,
            energy_to_reproduce: energy_to_reproduce,
            plants_per_day: plants_per_day,
            plants_per_day_forest: plants_per_day_forest,
            forest_width: forest_width,
            forest_height: forest_height,
            field: Vec::new(),
            plants: Vec::new(),
            animals: Vec::new(),
        };
        let mut index: u32 = 0;
        while index < height
            invariant
                index <= height,
                s.width == width,
                s.height == height,
                s.plant_energy == plant_energy,
                s.energy_to_reproduce == energy_to_reproduce,
                s.plants_per_day == plants_per_day,
                s.plants_per_day_forest == plants_per_day_forest,
                s.forest_width == forest_width,
                s.forest_height == forest_height,
                s.animals@.len() == 0,
                s.field@.len() == index,
                s.plants@.len() == index,
                forall|y: int|
                    0 <= y < index ==> (#[trigger] s.field@[y])@ == Seq::new(
                        width as nat,
                        |x: int| BLANK,
                    ),
                forall|y: int| 0 <= y < index ==> (#[trigger] s.plants@[y])@.len() == width,
                forall|y: int, x: int|
                    0 <= y < index && 0 <= x < width ==> (#[trigger] s.plants@[y]@[x])@ == 0,
            decreases height - index,
        {
            let mut index2: u32 = 0;
            let mut v: Vec<char> = Vec::new();
            let mut p: Vec<Plant> = Vec::new();
            while index2 < width
                invariant
                    index2 <= width,
                    v@.len() == index2,
                    p@.len() == index2,
                    forall|x: int| 0 <= x < index2 ==> #[trigger] v@[x] == BLANK,
                    forall|x: int| 0 <= x < index2 ==> (#[trigger] p@[x])@ == 0,
                decreases width - index2,
            {
                v.push(' ');
                p.push(Plant::new());
                index2 = index2 + 1;
            }
            assert(v@ =~= Seq::new(width as nat, |x: int| BLANK));
            s.field.push(v);
            s.plants.push(p);
            index = index + 1;
        }
        s.animals.push(Animal::new(width / 2, height / 2, FOUNDER_ENERGY));
        proof {
            assert(s@.plants =~~= Seq::new(
                height as nat,
                |y: int| Seq::new(width as nat, |x: int| 0nat),
            ));
            assert(s@.field =~~= Seq::new(
                height as nat,
                |y: int| Seq::new(width as nat, |x: int| BLANK),
            ));
        }
        s
    }

    pub fn get_width(&self) -> (width: u32)
        ensures
            width == self@.width,
    {
        self.width
    }

    pub fn get_height(&self) -> (height: u32)
        ensures
            height == self@.height,
    {
        self.height
    }

    /// Writes the symbol `c` into the cell `(x, y)` of the display buffer.
    pub fn set_single(&mut self, x: usize, y: usize, c: char)
        requires
            old(self)@.covers_grid(),
            old(self)@.on_grid(x as int, y as int),
        ensures
            final(self)@ == (GameView {
                field: with_cell(old(self)@.field, x as int, y as int, c),
                ..old(self)@
            }),
    {
        self.field[y][x] = c;
        proof {
            assert(self@.field =~~= with_cell(old(self)@.field, x as int, y as int, c));
            assert(self@.plants =~~= old(self)@.plants);
            assert(self@.animals =~= old(self)@.animals);
        }
    }

    /// Reads the symbol in the cell `(x, y)` of the display buffer.
    pub fn get_single(&self, x: usize, y: usize) -> (c: char)
        requires
            self@.covers_grid(),
            self@.on_grid(x as int, y as int),
        ensures
            c == self@.field[y as int][x as int],
    {
        assert(self@.field[y as int].len() == self@.width);
        self.field[y][x]
    }

    /// The amount of food on the cell `(x, y)`.
    pub fn get_plant_amount(&self, x: usize, y: usize) -> (amount: u32)
        requires
            self@.covers_grid(),
            self@.on_grid(x as int, y as int),
        ensures
            amount == self@.plants[y as int][x as int],
    {
        assert(self@.plants[y as int].len() == self@.width);
        self.plants[y][x].get_amount()
    }

    /// The number of live animals.
    pub fn animal_count(&self) -> (count: usize)
        ensures
            count == self@.animals.len(),
    {
        self.animals.len()
    }

    /// The live animal at `index` in the order of creation.
    pub fn get_animal(&self, index: usize) -> (animal: Animal)
        requires
            index < self@.animals.len(),
        ensures
            animal@ == self@.animals[index as int],
    {
        self.animals[index]
    }

    /// Lets one more plant grow on the cell `(x, y)`.  The first plant of a
    /// cell is drawn on the display.
    pub fn grow_plant(&mut self, x: u32, y: u32)
        requires
            old(self)@.covers_grid(),
            old(self)@.on_grid(x as int, y as int),
            old(self)@.plants[y as int][x as int] < u32::MAX,
        ensures
            final(self)@ == old(self)@.with_plant_at(x as int, y as int),
    {
        self.plants[y as usize][x as usize].increase();
        proof {
            assert(self@.plants =~~= with_cell(
                old(self)@.plants,
                x as int,
                y as int,
                old(self)@.plants[y as int][x as int] + 1,
            ));
            assert(self@.field =~~= old(self)@.field);
            assert(self@.animals =~= old(self)@.animals);
        }
        if self.plants[y as usize][x as usize].get_amount() == 1 {
            self.set_single(x as usize, y as usize, PLANT_MARK);
        }
    }

    /// Lets an animal try to eat on the cell `(x, y)` and returns the energy
    /// it gets: where there is a plant, one unit of it is eaten and is worth
    /// `plant_energy`; the display shows it when nothing is left.
    pub fn eat_plant(&mut self, x: u32, y: u32) -> (energy: u32)
        requires
            old(self)@.covers_grid(),
            old(self)@.on_grid(x as int, y as int),
        ensures
            final(self)@ == old(self)@.with_bite_at(x as int, y as int),
            energy == if old(self)@.plants[y as int][x as int] > 0 {
                old(self)@.plant_energy
            } else {
                0
            },
    {
        assert(self@.plants[y as int].len() == self@.width);
        assert(self@.field[y as int].len() == self@.width);
        if self.plants[y as usize][x as usize].get_amount() > 0 {
            self.plants[y as usize][x as usize].decrease();
            proof {
                assert(self@.plants =~~= with_cell(
                    old(self)@.plants,
                    x as int,
                    y as int,
                    (old(self)@.plants[y as int][x as int] - 1) as nat,
                ));
                assert(self@.field =~~= old(self)@.field);
                assert(self@.animals =~= old(self)@.animals);
            }
            if self.plants[y as usize][x as usize].get_amount() == 0 {
                self.set_single(x as usize, y as usize, BLANK);
            }
            return self.plant_energy;
        }
        0
    }

    /// Whether every cell can take the plants of one more day without its
    /// counter running over.
    pub fn has_room_to_grow(&self) -> (ok: bool)
        requires
            self.wf(),
        ensures
            ok == self@.room_to_grow(),
    {
        let growth: u64 = self.plants_per_day as u64 + self.plants_per_day_forest as u64;
        let mut y: usize = 0;
        while y < self.plants.len()
            invariant
                self.wf(),
                y <= self@.height,
                growth == self@.plants_per_day + self@.plants_per_day_forest,
                forall|cx: int, cy: int|
                    0 <= cx < self@.width && 0 <= cy < y ==> (#[trigger] self@.plants[cy][cx])
                        + growth <= u32::MAX,
            decreases self@.height - y,
        {
            let mut x: usize = 0;
            assert(self@.plants[y as int].len() == self@.width);
            while x < self.plants[y].len()
                invariant
                    self.wf(),
                    y < self@.height,
                    x <= self@.width,
                    self@.plants[y as int].len() == self@.width,
                    growth == self@.plants_per_day + self@.plants_per_day_forest,
                    forall|cx: int, cy: int|
                        0 <= cx < self@.width && 0 <= cy < y ==> (#[trigger] self@.plants[cy][cx])
                            + growth <= u32::MAX,
                    forall|cx: int|
                        0 <= cx < x ==> (#[trigger] self@.plants[y as int][cx]) + growth
                            <= u32::MAX,
                decreases self@.width - x,
            {
                if self.plants[y][x].get_amount() as u64 + growth > u32::MAX as u64 {
                    assert(self@.plants[y as int][x as int] + growth > u32::MAX);
                    return false;
                }
                x = x + 1;
            }
            y = y + 1;
        }
        true
    }

    /// Starts the next day: the plants of the day grow, then every animal
    /// has its day.
    pub fn new_day(&mut self)
        requires
            old(self).wf(),
            old(self)@.room_to_grow(),
        ensures
            final(self).wf(),
            old(self)@.advances_to(final(self)@),
            old(self)@.same_settings(final(self)@),
            forall|x: int, y: int|
                old(self)@.on_grid(x, y) ==> (#[trigger] final(self)@.plants[y][x]) <= old(
                    self,
                )@.plants[y][x] + old(self)@.plants_per_day + old(self)@.plants_per_day_forest,
            old(self)@.animals.len() - old(self)@.deaths() <= final(self)@.animals.len() <= 2 * (
            old(self)@.animals.len() - old(self)@.deaths()),
            old(self)@.shows_plants_apart_from(final(self)@.animals)
                ==> final(self)@.display_synced(),
    {
        self.generate_plants();
        let ghost grown = self@;
        self.update_animals();
        proof {
            assert(old(self)@.grows_to(grown) && grown.updates_to(self@));
            old(self)@.lemma_day(self@);
        }
    }

    /// Lets the plants of one day grow: `plants_per_day` of them on cells
    /// drawn from the whole grid, then `plants_per_day_forest` of them on
    /// cells drawn from the forest.
    pub fn generate_plants(&mut self)
        requires
            old(self).wf(),
            old(self)@.room_to_grow(),
        ensures
            final(self).wf(),
            old(self)@.grows_to(final(self)@),
            old(self)@.same_population(final(self)@),
    {
        let num_plants: u32 = self.plants_per_day;
        let num_plants_forest: u32 = self.plants_per_day_forest;
        let width_forest: u32 = self.forest_width;
        let height_forest: u32 = self.forest_height;
        let width: u32 = self.width;
        let height: u32 = self.height;
        let ghost mut spots: Seq<(int, int)> = Seq::empty();
        let mut i: u32 = 0;
        while i < num_plants
            invariant
                i <= num_plants,
                old(self).wf(),
                old(self)@.room_to_grow(),
                num_plants == old(self)@.plants_per_day,
                width == old(self)@.width,
                height == old(self)@.height,
                spots.len() == i,
                forall|k: int|
                    0 <= k < spots.len() ==> old(self)@.on_grid(
                        (#[trigger] spots[k]).0,
                        spots[k].1,
                    ),
                self@ == old(self)@.sown(spots),
            decreases num_plants - i,
        {
            let x: u32 = random_in_range(0, width);
            let y: u32 = random_in_range(0, height);
            proof {
                old(self)@.lemma_sown(spots);
                assert(self@.plants[y as int][x as int] <= old(self)@.plants[y as int][x as int]
                    + spots.len());
            }
            self.grow_plant(x, y);
            proof {
                let ghost longer = spots.push((x as int, y as int));
                assert(longer.drop_last() =~= spots);
                spots = longer;
            }
            i = i + 1;
        }
        let left: u32 = width / 2 - width_forest / 2;
        let top: u32 = height / 2 - height_forest / 2;
        let mut j: u32 = 0;
        while j < num_plants_forest
            invariant
                j <= num_plants_forest,
                old(self).wf(),
                old(self)@.room_to_grow(),
                num_plants == old(self)@.plants_per_day,
                num_plants_forest == old(self)@.plants_per_day_forest,
                width == old(self)@.width,
                height == old(self)@.height,
                width_forest == old(self)@.forest_width,
                height_forest == old(self)@.forest_height,
                left == width / 2 - width_forest / 2,
                top == height / 2 - height_forest / 2,
                spots.len() == num_plants + j,
                forall|k: int|
                    0 <= k < spots.len() ==> old(self)@.on_grid(
                        (#[trigger] spots[k]).0,
                        spots[k].1,
                    ),
                forall|k: int|
                    num_plants <= k < spots.len() ==> old(self)@.in_forest(
                        (#[trigger] spots[k]).0,
                        spots[k].1,
                    ),
                self@ == old(self)@.sown(spots),
            decreases num_plants_forest - j,
        {
            let x: u32 = random_in_range(0, width_forest) + left;
            let y: u32 = random_in_range(0, height_forest) + top;
            proof {
                old(self)@.lemma_sown(spots);
                assert(self@.plants[y as int][x as int] <= old(self)@.plants[y as int][x as int]
                    + spots.len());
            }
            self.grow_plant(x, y);
            proof {
                let ghost longer = spots.push((x as int, y as int));
                assert(longer.drop_last() =~= spots);
                spots = longer;
            }
            j = j + 1;
        }
        proof {
            assert(old(self)@.can_sow(spots));
            old(self)@.lemma_growth(self@);
        }
    }

    /// The cell of every live animal, in the order of the animals.
    pub fn positions(&self) -> (places: Vec<Coordinate>)
        ensures
            places@.len() == self@.animals.len(),
            forall|i: int|
                0 <= i < places@.len() ==> (#[trigger] places@[i])@ == (
                    self@.animals[i].x,
                    self@.animals[i].y,
                ),
    {
        let mut places: Vec<Coordinate> = Vec::new();
        let mut i: usize = 0;
        while i < self.animals.len()
            invariant
                i <= self.animals@.len(),
                places@.len() == i,
                forall|k: int|
                    0 <= k < i ==> (#[trigger] places@[k])@ == (
                        self@.animals[k].x,
                        self@.animals[k].y,
                    ),
            decreases self.animals@.len() - i,
        {
            places.push(Coordinate::new(self.animals[i].get_x(), self.animals[i].get_y()));
            i = i + 1;
        }
        places
    }

    /// Takes the animal marks off the display: every cell on which an
    /// animal stands goes blank, or shows the plants under the animal.
    pub fn uncover_animals(&mut self)
        requires
            old(self).wf(),
        ensures
            final(self)@ == old(self)@.uncovered(),
    {
        let to_clear: Vec<Coordinate> = self.positions();
        let mut k: usize = 0;
        assert(old(self)@.animals.take(0) =~= Seq::<AnimalView>::empty());
        while k < to_clear.len()
            invariant
                k <= to_clear@.len(),
                old(self).wf(),
                to_clear@.len() == old(self)@.animals.len(),
                forall|i: int|
                    0 <= i < to_clear@.len() ==> (#[trigger] to_clear@[i])@ == (
                        old(self)@.animals[i].x,
                        old(self)@.animals[i].y,
                    ),
                self@ == (GameView { field: self@.field, ..old(self)@ }),
                shaped(self@.field, self@.width, self@.height),
                forall|x: int, y: int|
                    self@.on_grid(x, y) ==> #[trigger] self@.field[y][x] == if occupied(
                        old(self)@.animals.take(k as int),
                        x,
                        y,
                    ) {
                        old(self)@.plant_mark(x, y)
                    } else {
                        old(self)@.field[y][x]
                    },
            decreases to_clear@.len() - k,
        {
            let x: usize = to_clear[k].get_x() as usize;
            let y: usize = to_clear[k].get_y() as usize;
            let ghost before = self@;
            assert(old(self)@.admits(old(self)@.animals[k as int]));
            assert(self@.field[y as int].len() == self@.width);
            assert(self@.plants[y as int].len() == self@.width);
            self.set_single(x, y, BLANK);
            if self.plants[y][x].get_amount() > 0 {
                self.set_single(x, y, PLANT_MARK);
            }
            proof {
                let seen = old(self)@.animals.take(k as int);
                assert(old(self)@.animals.take(k + 1) =~= seen.push(old(self)@.animals[k as int]));
                assert forall|cx: int, cy: int|
                    self@.on_grid(cx, cy) implies #[trigger] self@.field[cy][cx] == if occupied(
                    old(self)@.animals.take(k + 1),
                    cx,
                    cy,
                ) {
                    old(self)@.plant_mark(cx, cy)
                } else {
                    old(self)@.field[cy][cx]
                } by {
                    lemma_occupied_push(seen, old(self)@.animals[k as int], cx, cy);
                    assert(before.field[cy].len() == before.width);
                    assert(before.field[cy][cx] == if occupied(seen, cx, cy) {
                        old(self)@.plant_mark(cx, cy)
                    } else {
                        old(self)@.field[cy][cx]
                    });
                }
            }
            k = k + 1;
        }
        proof {
            assert(old(self)@.animals.take(k as int) =~= old(self)@.animals);
            assert(self@.field =~~= old(self)@.uncovered().field);
        }
    }

    /// Draws the animals: every cell on which an animal stands gets the
    /// animal mark, whatever grows there.
    pub fn mark_animals(&mut self)
        requires
            old(self).wf(),
        ensures
            final(self)@ == old(self)@.covered(),
    {
        let to_mark: Vec<Coordinate> = self.positions();
        let mut k: usize = 0;
        assert(old(self)@.animals.take(0) =~= Seq::<AnimalView>::empty());
        while k < to_mark.len()
            invariant
                k <= to_mark@.len(),
                old(self).wf(),
                to_mark@.len() == old(self)@.animals.len(),
                forall|i: int|
                    0 <= i < to_mark@.len() ==> (#[trigger] to_mark@[i])@ == (
                        old(self)@.animals[i].x,
                        old(self)@.animals[i].y,
                    ),
                self@ == (GameView { field: self@.field, ..old(self)@ }),
                shaped(self@.field, self@.width, self@.height),
                forall|x: int, y: int|
                    self@.on_grid(x, y) ==> #[trigger] self@.field[y][x] == if occupied(
                        old(self)@.animals.take(k as int),
                        x,
                        y,
                    ) {
                        ANIMAL_MARK
                    } else {
                        old(self)@.field[y][x]
                    },
            decreases to_mark@.len() - k,
        {
            let x: usize = to_mark[k].get_x() as usize;
            let y: usize = to_mark[k].get_y() as usize;
            let ghost before = self@;
            assert(old(self)@.admits(old(self)@.animals[k as int]));
            assert(self@.field[y as int].len() == self@.width);
            self.set_single(x, y, ANIMAL_MARK);
            proof {
                let seen = old(self)@.animals.take(k as int);
                assert(old(self)@.animals.take(k + 1) =~= seen.push(old(self)@.animals[k as int]));
                assert forall|cx: int, cy: int|
                    self@.on_grid(cx, cy) implies #[trigger] self@.field[cy][cx] == if occupied(
                    old(self)@.animals.take(k + 1),
                    cx,
                    cy,
                ) {
                    ANIMAL_MARK
                } else {
                    old(self)@.field[cy][cx]
                } by {
                    lemma_occupied_push(seen, old(self)@.animals[k as int], cx, cy);
                    assert(before.field[cy].len() == before.width);
                    assert(before.field[cy][cx] == if occupied(seen, cx, cy) {
                        ANIMAL_MARK
                    } else {
                        old(self)@.field[cy][cx]
                    });
                }
            }
            k = k + 1;
        }
        proof {
            assert(old(self)@.animals.take(k as int) =~= old(self)@.animals);
            assert(self@.field =~~= old(self)@.covered().field);
        }
    }

    /// Gives every animal its day, in the order of the animals: it tries to
    /// eat where it stands, spends a unit of energy and moves, or dies if it
    /// has none; it takes in what it ate, and breeds if it can.  The dead
    /// are then taken out, the newborn join at the end, and the display is
    /// brought in step.
    pub fn update_animals(&mut self)
        requires
            old(self).wf(),
        ensures
            final(self).wf(),
            old(self)@.updates_to(final(self)@),
            old(self)@.same_settings(final(self)@),
            final(self)@.animals.len() == old(self)@.animals.len() - old(self)@.deaths() + old(
                self,
            )@.births(),
            final(self)@.display_synced() <==> old(self)@.shows_plants_apart_from(
                final(self)@.animals,
            ),
    {
        let mut garbage: Vec<usize> = Vec::new();
        let mut newborn: Vec<Animal> = Vec::new();
        self.uncover_animals();
        let ghost start = old(self)@;
        let ghost bare = self@;
        let ghost mut laters: Seq<Option<AnimalView>> = Seq::empty();
        let ghost mut children: Seq<Option<AnimalView>> = Seq::empty();
        proof {
            start.lemma_uncovered();
        }
        let width: u32 = self.width;
        let height: u32 = self.height;
        let energy_to_reproduce: u32 = self.energy_to_reproduce;
        let mut size: usize = self.animals.len();
        let mut i: usize = 0;
        while i < size
            invariant
                i <= size,
                start.wf(),
                bare.wf(),
                bare == start.uncovered(),
                size == start.animals.len(),
                width == start.width,
                height == start.height,
                energy_to_reproduce == start.energy_to_reproduce,
                self@ == (GameView { animals: self@.animals, ..bare.after_meals(i as nat) }),
                self@.animals.len() == size,
                forall|j: int| i <= j < size ==> #[trigger] self@.animals[j] == start.animals[j],
                laters.len() == i,
                children.len() == i,
                forall|j: int| 0 <= j < i ==> start.fate(j, #[trigger] laters[j], children[j]),
                forall|j: int|
                    0 <= j < i ==> (#[trigger] laters[j] is Some ==> laters[j] == Some(
                        self@.animals[j],
                    )),
                newborn@.len() == present(children).len(),
                forall|k: int|
                    0 <= k < newborn@.len() ==> (#[trigger] newborn@[k])@ == present(children)[k],
                lists_gaps(garbage@, laters),
            decreases size - i,
        {
            let ghost before = self@;
            let ghost animal = start.animals[i as int];
            proof {
                bare.lemma_after_meals(i as nat);
                start.lemma_meals_ignore_display(bare, i as nat);
                assert(start.admits(animal));
                assert(self@.animals[i as int] == animal);
                assert(start.same_population(bare));
            }
            let x: u32 = self.animals[i].get_x();
            let y: u32 = self.animals[i].get_y();
            let e: u32 = self.eat_plant(x, y);
            assert(e == start.meal(i as int));
            assert(self@ == (GameView {
                animals: before.animals,
                ..bare.after_meals((i + 1) as nat)
            }));
            let ghost fates = (laters, children);
            let ghost buried = garbage@;
            let alive: bool = self.animals[i].new_day(width, height);
            if !alive {
                garbage.push(i);
                proof {
                    laters = laters.push(None);
                    children = children.push(None);
                }
            } else {
                self.animals[i].eat(e);
                let born: Option<Animal> = self.animals[i].reproduce(energy_to_reproduce);
                proof {
                    laters = laters.push(Some(self@.animals[i as int]));
                }
                match born {
                    Some(child) => {
                        newborn.push(child);
                        proof {
                            children = children.push(Some(child@));
                        }
                    },
                    None => {
                        proof {
                            children = children.push(None);
                        }
                    },
                }
            }
            proof {
                assert(self@.animals =~= before.animals.update(i as int, self@.animals[i as int]));
                assert(start.fate(i as int, laters[i as int], children[i as int]));
                assert(laters.drop_last() =~= fates.0);
                assert(children.drop_last() =~= fates.1);
                lemma_lists_gaps_push(buried, fates.0, laters[i as int]);
            }
            i = i + 1;
        }
        let ghost raw = self@.animals;
        let ghost fed = bare.after_meals(size as nat);
        self.animals.append(&mut newborn);
        size = garbage.len();
        let ghost count = raw.len() as int;
        let ghost mut cut: int = count;
        proof {
            assert(laters.subrange(count, count) =~= Seq::<Option<AnimalView>>::empty());
            assert(self@.animals =~= raw.take(cut) + present(laters.subrange(cut, count)) + present(
                children,
            ));
        }
        let mut k: usize = size;
        while k > 0
            invariant
                k <= garbage@.len(),
                count == raw.len(),
                laters.len() == count,
                0 <= cut <= count,
                k == garbage@.len() ==> cut == count,
                k < garbage@.len() ==> cut == garbage@[k as int],
                self@ == (GameView { animals: self@.animals, ..fed }),
                self@.animals == raw.take(cut) + present(laters.subrange(cut, count)) + present(
                    children,
                ),
                forall|j: int|
                    0 <= j < count ==> (#[trigger] laters[j] is Some ==> laters[j] == Some(raw[j])),
                lists_gaps(garbage@, laters),
            decreases k,
        {
            k = k - 1;
            let gone: usize = garbage[k];
            let ghost before = self@.animals;
            proof {
                if k + 1 < garbage@.len() {
                    assert(garbage@[k as int] < garbage@[k + 1]);
                }
                assert(gone < cut <= before.len());
                lemma_filled_between_gaps(garbage@, laters, k + 1);
                lemma_present_skip_one(laters, raw, gone as int, cut);
            }
            self.animals.remove(gone);
            proof {
                assert(self@.animals =~= before.remove(gone as int));
                assert(before.remove(gone as int) =~= raw.take(gone as int) + present(
                    laters.subrange(gone as int, count),
                ) + present(children));
                cut = gone as int;
            }
        }
        proof {
            lemma_filled_between_gaps(garbage@, laters, 0);
            lemma_present_prefix(laters, raw, cut);
            assert(self@.animals =~= present(laters) + present(children));
            assert(self@ == start.fated(laters, children));
            start.lemma_fated(laters, children);
        }
        garbage.clear();
        self.mark_animals();
        proof {
            assert(start.updates_with(laters, children, self@));
            start.lemma_update_keeps_wf(self@);
            start.lemma_population(self@);
            start.lemma_update_syncs_display(self@);
        }
    }
}

} // verus!
