//! The animal: a mobile agent with a position, an energy reserve, a gene
//! vector and the direction it is facing.

use crate::chance::{random_bool, random_in_range};
use crate::genes::{
    choice_table, direction_table, genes_are_valid, is_mutation, lemma_choice_table_shape,
    lemma_mutation_keeps_genes_valid, lemma_some_weight, mutated_at, mutated_gene, total_weight,
    valid_genes, GENE_MAX, GENE_MIN,
};
use crate::torus::{dx, dy, lemma_toroidal_wraparound, lemma_wrap_inside, wrap, DIRECTIONS};
use vstd::arithmetic::div_mod::lemma_small_mod;
use vstd::prelude::*;

verus! {

/// What an animal is, as mathematics sees it.
pub struct AnimalView {
    /// The column the animal stands in.
    pub x: nat,
    /// The row the animal stands in.
    pub y: nat,
    /// The energy the animal has left.
    pub energy: nat,
    /// The weight that the animal gives to each direction.
    pub genes: Seq<u8>,
    /// The direction of the animal's next step.
    pub direction: nat,
}

impl AnimalView {
    /// The genes are within their bounds and the direction is one of the
    /// eight compass directions.
    pub open spec fn wf(self) -> bool {
        &&& valid_genes(self.genes)
        &&& self.direction < DIRECTIONS
    }

    /// The animal stands on a grid of `width` by `height` cells.
    pub open spec fn on_grid(self, width: nat, height: nat) -> bool {
        &&& self.x < width
        &&& self.y < height
    }

    /// The animal with another amount of energy.
    pub open spec fn with_energy(self, energy: nat) -> AnimalView {
        AnimalView { energy: energy, ..self }
    }

    /// The animal with other genes.
    pub open spec fn with_genes(self, genes: Seq<u8>) -> AnimalView {
        AnimalView { genes: genes, ..self }
    }

    /// The animal facing another way.
    pub open spec fn facing(self, direction: nat) -> AnimalView {
        AnimalView { direction: direction, ..self }
    }

    /// The animal after one step in the direction it faces, on a grid whose
    /// edges wrap around.
    pub open spec fn stepped(self, width: nat, height: nat) -> AnimalView {
        AnimalView {
            x: wrap(self.x as int, dx(self.direction), width as int) as nat,
            y: wrap(self.y as int, dy(self.direction), height as int) as nat,
            ..self
        }
    }

    /// The grid is a torus for every animal on it: a step never leaves the
    /// grid, a step left from the first column lands in the last one, a
    /// step right from the last column lands in the first one, and likewise
    /// for the rows; any other step changes each coordinate by the offset of
    /// the direction.
    pub proof fn lemma_step_wraps_around(self, width: nat, height: nat)
        requires
            self.on_grid(width, height),
        ensures
            self.stepped(width, height).on_grid(width, height),
            self.stepped(width, height).x == if self.x + dx(self.direction) < 0 {
                width - 1
            } else if self.x + dx(self.direction) >= width {
                0
            } else {
                self.x + dx(self.direction)
            },
            self.stepped(width, height).y == if self.y + dy(self.direction) < 0 {
                height - 1
            } else if self.y + dy(self.direction) >= height {
                0
            } else {
                self.y + dy(self.direction)
            },
    {
        lemma_toroidal_wraparound(self.x as int, dx(self.direction), width as int);
        lemma_toroidal_wraparound(self.y as int, dy(self.direction), height as int);
        if 0 <= self.x + dx(self.direction) < width {
            lemma_wrap_inside(self.x as int, dx(self.direction), width as int);
        }
        if 0 <= self.y + dy(self.direction) < height {
            lemma_wrap_inside(self.y as int, dy(self.direction), height as int);
        }
    }

    /// `self` is `before` one day later: one unit of energy is spent, one
    /// step is taken, and a new direction is chosen from the same genes.
    pub open spec fn is_day_after(self, before: AnimalView, width: nat, height: nat) -> bool {
        &&& before.energy >= 1
        &&& self.direction < DIRECTIONS
        &&& self == before.with_energy((before.energy - 1) as nat).stepped(width, height).facing(
            self.direction,
        )
    }

    /// `self` is a child that `parent` gives `energy` to: it stands where
    /// the parent stands and carries the parent's genes after one mutation.
    pub open spec fn is_child_of(self, parent: AnimalView, energy: nat) -> bool {
        &&& self.x == parent.x
        &&& self.y == parent.y
        &&& self.energy == energy
        &&& is_mutation(parent.genes, self.genes)
        &&& self.direction < DIRECTIONS
    }
}

/// A live animal.
#[derive(Clone, Copy, Debug)]
pub struct Animal {
    x: u32,
    y: u32,
    energy: u32,
    genes: [u8; 8],
    direction: usize,
}

impl View for Animal {
    type V = AnimalView;

    closed spec fn view(&self) -> AnimalView {
        AnimalView {
            x: self.x as nat,
            y: self.y as nat,
            energy: self.energy as nat,
            genes: self.genes@,
            direction: self.direction as nat,
        }
    }
}

impl Animal {
    /// The invariant of every animal: see [`AnimalView::wf`].
    pub open spec fn wf(&self) -> bool {
        self@.wf()
    }

    /// Creates a founder at `(x, y)`: every gene is drawn independently from
    /// the full gene range, and the first direction is drawn from the genes.
    pub fn new(x: u32, y: u32, energy: u32) -> (a: Animal)
        ensures
            a.wf(),
            a@.x == x,
            a@.y == y,
            a@.energy == energy,
    {
        let mut a: Animal = Animal {
            x: x,
            y: y,
            energy: energy,
            genes: [GENE_MIN; 8],
            direction: 0,
        };
        let mut i: usize = 0;
        while i < 8
            invariant
                i <= 8,
                a.x == x,
                a.y == y,
                a.energy == energy,
                forall|k: int| 0 <= k < 8 ==> GENE_MIN <= #[trigger] a.genes@[k] <= GENE_MAX,
            decreases 8 - i,
        {
            let gene: u32 = random_in_range(1, 11);
            a.genes[i] = gene as u8;
            i = i + 1;
        }
        a.direction = a.determine_direction();
        a
    }

    /// Puts an animal together from its parts, if they make a well-formed
    /// animal.
    pub fn from_parts(x: u32, y: u32, energy: u32, genes: [u8; 8], direction: usize) -> (made:
        Option<Animal>)
        ensures
            made is Some <==> valid_genes(genes@) && direction < DIRECTIONS,
            made matches Some(a) ==> a@ == (AnimalView {
                x: x as nat,
                y: y as nat,
                energy: energy as nat,
                genes: genes@,
                direction: direction as nat,
            }),
    {
        if genes_are_valid(&genes) && direction < DIRECTIONS {
            Some(Animal { x: x, y: y, energy: energy, genes: genes, direction: direction })
        } else {
            None
        }
    }

    /// Creates the child of an animal with the given genes: the child
    /// carries them after exactly one mutation.
    pub fn new_child(x: u32, y: u32, energy: u32, genes: &[u8; 8]) -> (a: Animal)
        requires
            valid_genes(genes@),
        ensures
            a.wf(),
            a@.x == x,
            a@.y == y,
            a@.energy == energy,
            is_mutation(genes@, a@.genes),
    {
        let mut a: Animal = Animal {
            x: x,
            y: y,
            energy: energy,
            genes: [GENE_MIN; 8],
            direction: 0,
        };
        let mut i: usize = 0;
        while i < 8
            invariant
                i <= 8,
                a.x == x,
                a.y == y,
                a.energy == energy,
                a.direction == 0,
                forall|k: int| 0 <= k < i ==> #[trigger] a.genes@[k] == genes@[k],
                forall|k: int| i <= k < 8 ==> #[trigger] a.genes@[k] == GENE_MIN,
                valid_genes(genes@),
            decreases 8 - i,
        {
            a.genes[i] = genes[i];
            i = i + 1;
        }
        assert(a.genes@ =~= genes@);
        a.mutate();
        a.direction = a.determine_direction();
        a
    }

    /// Applies one mutation to the gene at `index`: see [`mutated_gene`].
    pub fn shift_gene(&mut self, index: usize, up: bool)
        requires
            index < 8,
        ensures
            final(self)@ == old(self)@.with_genes(
                old(self)@.genes.update(
                    index as int,
                    mutated_gene(old(self)@.genes[index as int], up),
                ),
            ),
    {
        let gene = self.genes[index];
        if gene > GENE_MIN && gene < GENE_MAX {
            if up {
                self.genes[index] = gene + 1;
            } else {
                self.genes[index] = gene - 1;
            }
        } else if gene == GENE_MIN {
            self.genes[index] = gene + 1;
        } else if gene == GENE_MAX {
            self.genes[index] = gene - 1;
        }
        assert(self.genes@ =~= old(self).genes@.update(
            index as int,
            mutated_gene(old(self).genes@[index as int], up),
        ));
    }

    /// Picks one gene at random and moves it by one: up or down at random
    /// where both ways are open, and the one open way at either bound.
    pub fn mutate(&mut self)
        requires
            valid_genes(old(self)@.genes),
        ensures
            is_mutation(old(self)@.genes, final(self)@.genes),
            valid_genes(final(self)@.genes),
            final(self)@ == old(self)@.with_genes(final(self)@.genes),
    {
        let ind: usize = random_in_range(0, 8) as usize;
        let up: bool = if self.genes[ind] > GENE_MIN && self.genes[ind] < GENE_MAX {
            random_bool()
        } else {
            false
        };
        self.shift_gene(ind, up);
        proof {
            assert(mutated_at(old(self)@.genes, self@.genes, ind as int));
            lemma_mutation_keeps_genes_valid(old(self)@.genes, self@.genes);
        }
    }

    /// Breeds if the animal has more energy than `energy_to_reproduce`: the
    /// child takes half of the energy, rounded down, and the parent keeps
    /// the rest.  With less energy nothing happens.
    pub fn reproduce(&mut self, energy_to_reproduce: u32) -> (born: Option<Animal>)
        requires
            old(self).wf(),
        ensures
            born is Some <==> old(self)@.energy > energy_to_reproduce,
            born is None ==> final(self)@ == old(self)@,
            born matches Some(child) ==> {
                &&& child.wf()
                &&& child@.is_child_of(old(self)@, old(self)@.energy / 2)
                &&& child@.energy + final(self)@.energy == old(self)@.energy
                &&& final(self)@ == old(self)@.with_energy(
                    (old(self)@.energy - old(self)@.energy / 2) as nat,
                )
            },
    {
        if self.energy > energy_to_reproduce {
            let split: u32 = self.energy / 2;
            self.energy = self.energy - split;
            return Some(Animal::new_child(self.x, self.y, split, &self.genes));
        }
        None
    }

    /// Lives through one day.  An animal without energy dies: the result is
    /// `false` and nothing changes.  Any other animal spends one unit of
    /// energy, takes one step in the direction it faces and chooses the
    /// direction of its next step.
    pub fn new_day(&mut self, width: u32, height: u32) -> (alive: bool)
        requires
            old(self).wf(),
            old(self)@.on_grid(width as nat, height as nat),
        ensures
            alive <==> old(self)@.energy >= 1,
            !alive ==> final(self)@ == old(self)@,
            alive ==> final(self)@.is_day_after(old(self)@, width as nat, height as nat),
            final(self).wf(),
            final(self)@.on_grid(width as nat, height as nat),
    {
        if self.energy < 1 {
            return false;
        }
        self.energy = self.energy - 1;
        self.move_animal(width, height);
        self.direction = self.determine_direction();
        true
    }

    /// Takes in `energy`.
    pub fn eat(&mut self, energy: u32)
        requires
            old(self)@.energy + energy <= u32::MAX,
        ensures
            final(self)@ == old(self)@.with_energy(old(self)@.energy + energy as nat),
    {
        self.energy = self.energy + energy;
    }

    pub fn get_x(&self) -> (x: u32)
        ensures
            x == self@.x,
    {
        self.x
    }

    pub fn get_y(&self) -> (y: u32)
        ensures
            y == self@.y,
    {
        self.y
    }

    pub fn get_energy(&self) -> (energy: u32)
        ensures
            energy == self@.energy,
    {
        self.energy
    }

    pub fn get_genes(&self) -> (genes: [u8; 8])
        ensures
            genes@ == self@.genes,
    {
        self.genes
    }

    pub fn get_direction(&self) -> (direction: usize)
        ensures
            direction == self@.direction,
    {
        self.direction
    }

    /// The direction that the slot `slot` of the animal's choice table
    /// stands for.
    pub fn direction_for_slot(&self, slot: usize) -> (direction: usize)
        requires
            slot < choice_table(self@.genes).len(),
        ensures
            direction == choice_table(self@.genes)[slot as int],
            direction < DIRECTIONS,
    {
        let range: Vec<usize> = direction_table(&self.genes);
        proof {
            lemma_choice_table_shape(self.genes@);
        }
        range[slot]
    }

    /// Draws the direction of the next step: direction `i` is drawn with a
    /// weight of `genes[i]`, by drawing one slot of the choice table
    /// uniformly.
    pub fn determine_direction(&self) -> (direction: usize)
        requires
            valid_genes(self@.genes),
        ensures
            direction < DIRECTIONS,
            choice_table(self@.genes).contains(direction as nat),
    {
        let size: u32 = total_weight(&self.genes);
        proof {
            lemma_some_weight(self.genes@);
        }
        let r_num: usize = random_in_range(0, size) as usize;
        self.direction_for_slot(r_num)
    }

    /// Takes one step in the direction the animal faces.  Each axis wraps
    /// around on its own: a step off one edge of the grid lands on the
    /// opposite edge.
    pub fn move_animal(&mut self, width: u32, height: u32)
        requires
            old(self)@.on_grid(width as nat, height as nat),
        ensures
            final(self)@ == old(self)@.stepped(width as nat, height as nat),
            final(self)@.on_grid(width as nat, height as nat),
    {
        proof {
            lemma_toroidal_wraparound(self.x as int, dx(self.direction as nat), width as int);
            lemma_toroidal_wraparound(self.y as int, dy(self.direction as nat), height as int);
            if self.x > 0 {
                lemma_wrap_inside(self.x as int, -1, width as int);
            }
            if self.y > 0 {
                lemma_wrap_inside(self.y as int, -1, height as int);
            }
            if self.x + 1 < width {
                lemma_wrap_inside(self.x as int, 1, width as int);
            }
            if self.y + 1 < height {
                lemma_wrap_inside(self.y as int, 1, height as int);
            }
            lemma_wrap_inside(self.x as int, 0, width as int);
            lemma_wrap_inside(self.y as int, 0, height as int);
        }
        match self.direction {
            0 => {
                if self.x > 0 {
                    self.x = self.x - 1;
                } else {
                    self.x = width - 1;
                }
                if self.y > 0 {
                    self.y = self.y - 1;
                } else {
                    self.y = height - 1;
                }
            },
            1 => {
                if self.y > 0 {
                    self.y = self.y - 1;
                } else {
                    self.y = height - 1;
                }
            },
            2 => {
                self.x = self.x + 1;
                if self.y > 0 {
                    self.y = self.y - 1;
                } else {
                    self.y = height - 1;
                }
            },
            3 => {
                self.x = self.x + 1;
            },
            4 => {
                self.x = self.x + 1;
                self.y = self.y + 1;
            },
            5 => {
                self.y = self.y + 1;
            },
            6 => {
                if self.x > 0 {
                    self.x = self.x - 1;
                } else {
                    self.x = width - 1;
                }
                self.y = self.y + 1;
            },
            _ => {
                if self.x > 0 {
                    self.x = self.x - 1;
                } else {
                    self.x = width - 1;
                }
            },
        }
        let ghost stepped = *self;
        self.fix_position(width, height);
        proof {
            if stepped.x < width {
                lemma_small_mod(stepped.x as nat, width as nat);
            }
            if stepped.y < height {
                lemma_small_mod(stepped.y as nat, height as nat);
            }
        }
    }

    /// Brings a position that has run over the far edge of the grid back
    /// onto it.
    pub fn fix_position(&mut self, width: u32, height: u32)
        requires
            width > 0,
            height > 0,
        ensures
            final(self)@ == (AnimalView {
                x: (old(self)@.x % width as nat) as nat,
                y: (old(self)@.y % height as nat) as nat,
                ..old(self)@
            }),
    {
        proof {
            if self.x < width {
                lemma_small_mod(self.x as nat, width as nat);
            }
            if self.y < height {
                lemma_small_mod(self.y as nat, height as nat);
            }
        }
        if self.x >= width {
            self.x = self.x % width;
        }
        if self.y >= height {
            self.y = self.y % height;
        }
    }
}

} // verus!
