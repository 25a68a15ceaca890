//! The gene vector: eight weights, one per compass direction, that bias the
//! way an animal moves and that change by one step from parent to child.

use vstd::prelude::*;

verus! {

/// The smallest value a gene can take.
pub const GENE_MIN: u8 = 1;

/// The largest value a gene can take.
pub const GENE_MAX: u8 = 10;

/// A gene vector has one gene per direction and every gene lies between
/// `GENE_MIN` and `GENE_MAX`.
pub open spec fn valid_genes(genes: Seq<u8>) -> bool {
    &&& genes.len() == 8
    &&& forall|i: int| 0 <= i < 8 ==> GENE_MIN <= #[trigger] genes[i] <= GENE_MAX
}

/// What a single mutation makes of one gene: a gene at the lower bound goes
/// up, a gene at the upper bound goes down, and any gene in between goes the
/// way `up` says.
pub open spec fn mutated_gene(gene: u8, up: bool) -> u8 {
    if gene == GENE_MIN {
        (gene + 1) as u8
    } else if gene == GENE_MAX {
        (gene - 1) as u8
    } else if GENE_MIN < gene < GENE_MAX {
        if up {
            (gene + 1) as u8
        } else {
            (gene - 1) as u8
        }
    } else {
        gene
    }
}

/// `child` is `parent` after exactly one mutation of the gene at `index`.
pub open spec fn mutated_at(parent: Seq<u8>, child: Seq<u8>, index: int) -> bool {
    &&& 0 <= index < parent.len()
    &&& exists|up: bool| child == parent.update(index, #[trigger] mutated_gene(parent[index], up))
}

/// `child` is `parent` after exactly one mutation of one of its genes.
pub open spec fn is_mutation(parent: Seq<u8>, child: Seq<u8>) -> bool {
    exists|index: int| mutated_at(parent, child, index)
}

/// The sum of all genes: the number of slots in the choice table.
pub open spec fn gene_total(genes: Seq<u8>) -> nat
    decreases genes.len(),
{
    if genes.len() == 0 {
        0
    } else {
        gene_total(genes.drop_last()) + genes.last() as nat
    }
}

/// The table a direction is drawn from: direction `0` fills the first
/// `genes[0]` slots, direction `1` the next `genes[1]` slots, and so on.  A
/// uniformly drawn slot therefore picks direction `i` with weight `genes[i]`.
pub open spec fn choice_table(genes: Seq<u8>) -> Seq<nat>
    decreases genes.len(),
{
    if genes.len() == 0 {
        Seq::empty()
    } else {
        choice_table(genes.drop_last()) + Seq::new(
            genes.last() as nat,
            |slot: int| (genes.len() - 1) as nat,
        )
    }
}

/// How often `direction` occurs in `table`.
pub open spec fn occurrences(table: Seq<nat>, direction: nat) -> nat
    decreases table.len(),
{
    if table.len() == 0 {
        0
    } else {
        occurrences(table.drop_last(), direction) + if table.last() == direction {
            1nat
        } else {
            0nat
        }
    }
}

/// A mutation moves a gene by exactly one and keeps it inside the bounds.
pub proof fn lemma_mutated_gene(gene: u8, up: bool)
    requires
        GENE_MIN <= gene <= GENE_MAX,
    ensures
        GENE_MIN <= mutated_gene(gene, up) <= GENE_MAX,
        gene == GENE_MIN ==> mutated_gene(gene, up) == 2,
        gene == GENE_MAX ==> mutated_gene(gene, up) == 9,
        mutated_gene(gene, up) == gene + 1 || mutated_gene(gene, up) == gene - 1,
        GENE_MIN < gene < GENE_MAX ==> mutated_gene(gene, true) == gene + 1 && mutated_gene(
            gene,
            false,
        ) == gene - 1,
{
}

/// A mutation of a valid gene vector is a valid gene vector that differs from
/// it in exactly one gene, and there by exactly one.
pub proof fn lemma_mutation_keeps_genes_valid(parent: Seq<u8>, child: Seq<u8>)
    requires
        valid_genes(parent),
        is_mutation(parent, child),
    ensures
        valid_genes(child),
        exists|index: int|
            0 <= index < 8 && (#[trigger] child[index] == parent[index] + 1 || child[index]
                == parent[index] - 1) && forall|other: int|
                0 <= other < 8 && other != index ==> child[other] == parent[other],
{
    let index = choose|index: int| mutated_at(parent, child, index);
    let up = choose|up: bool|
        child == parent.update(index, #[trigger] mutated_gene(parent[index], up));
    lemma_mutated_gene(parent[index], up);
    assert(child[index] == parent[index] + 1 || child[index] == parent[index] - 1);
}

/// Genes that are all at least `GENE_MIN` weigh at least one slot each, so
/// that there is a slot to draw.
pub proof fn lemma_some_weight(genes: Seq<u8>)
    requires
        forall|i: int| 0 <= i < genes.len() ==> #[trigger] genes[i] >= GENE_MIN,
    ensures
        gene_total(genes) >= genes.len(),
    decreases genes.len(),
{
    if genes.len() > 0 {
        lemma_some_weight(genes.drop_last());
    }
}

/// The choice table has one slot per unit of gene weight, and every slot
/// holds a direction of the gene vector.
pub proof fn lemma_choice_table_shape(genes: Seq<u8>)
    ensures
        choice_table(genes).len() == gene_total(genes),
        forall|slot: int|
            0 <= slot < choice_table(genes).len() ==> #[trigger] choice_table(genes)[slot]
                < genes.len(),
    decreases genes.len(),
{
    if genes.len() > 0 {
        lemma_choice_table_shape(genes.drop_last());
    }
}


proof fn lemma_occurrences_concat(front: Seq<nat>, back: Seq<nat>, direction: nat)
    ensures
        occurrences(front + back, direction) == occurrences(front, direction) + occurrences(
            back,
            direction,
        ),
    decreases back.len(),
{
    if back.len() == 0 {
        assert(front + back =~= front);
    } else {
        assert((front + back).drop_last() =~= front + back.drop_last());
        lemma_occurrences_concat(front, back.drop_last(), direction);
    }
}

proof fn lemma_occurrences_run(length: nat, value: nat, direction: nat)
    ensures
        occurrences(Seq::new(length, |slot: int| value), direction) == if value == direction {
            length
        } else {
            0
        },
    decreases length,
{
    if length > 0 {
        let run = Seq::new(length, |slot: int| value);
        assert(run.drop_last() =~= Seq::new((length - 1) as nat, |slot: int| value));
        lemma_occurrences_run((length - 1) as nat, value, direction);
    }
}

/// Direction `i` fills exactly `genes[i]` slots of the choice table, and no
/// other number fills any.
pub proof fn lemma_selection_weight(genes: Seq<u8>, direction: nat)
    ensures
        occurrences(choice_table(genes), direction) == if direction < genes.len() {
            genes[direction as int] as nat
        } else {
            0
        },
    decreases genes.len(),
{
    if genes.len() > 0 {
        let last = (genes.len() - 1) as nat;
        lemma_selection_weight(genes.drop_last(), direction);
        lemma_occurrences_run(genes.last() as nat, last, direction);
        lemma_occurrences_concat(
            choice_table(genes.drop_last()),
            Seq::new(genes.last() as nat, |slot: int| last),
            direction,
        );
    }
}

/// Whether `genes` is a gene vector an animal may carry.
pub fn genes_are_valid(genes: &[u8; 8]) -> (ok: bool)
    ensures
        ok == valid_genes(genes@),
{
    let mut i: usize = 0;
    while i < 8
        invariant
            i <= 8,
            forall|k: int| 0 <= k < i ==> GENE_MIN <= #[trigger] genes@[k] <= GENE_MAX,
        decreases 8 - i,
    {
        if genes[i] < GENE_MIN || genes[i] > GENE_MAX {
            return false;
        }
        i = i + 1;
    }
    true
}

/// The number of slots in the choice table of `genes`.
pub fn total_weight(genes: &[u8; 8]) -> (total: u32)
    ensures
        total == gene_total(genes@),
        total == choice_table(genes@).len(),
{
    let mut size: u32 = 0;
    let mut i: usize = 0;
    assert(genes@.take(0) =~= Seq::<u8>::empty());
    while i < 8
        invariant
            i <= 8,
            size == gene_total(genes@.take(i as int)),
            size <= 255 * i,
        decreases 8 - i,
    {
        assert(genes@.take(i + 1).drop_last() =~= genes@.take(i as int));
        size = size + genes[i] as u32;
        i = i + 1;
    }
    proof {
        assert(genes@.take(8) =~= genes@);
        lemma_choice_table_shape(genes@);
    }
    size
}

/// Lays out the choice table of `genes`: the direction that each slot
/// stands for.
pub fn direction_table(genes: &[u8; 8]) -> (table: Vec<usize>)
    ensures
        table@.len() == gene_total(genes@),
        table@.len() == choice_table(genes@).len(),
        forall|slot: int|
            0 <= slot < table@.len() ==> #[trigger] table@[slot] == choice_table(genes@)[slot],
{
    let mut table: Vec<usize> = Vec::new();
    let mut index: usize = 0;
    assert(genes@.take(0) =~= Seq::<u8>::empty());
    while index < 8
        invariant
            index <= 8,
            table@.len() == choice_table(genes@.take(index as int)).len(),
            forall|slot: int|
                0 <= slot < table@.len() ==> #[trigger] table@[slot] == choice_table(
                    genes@.take(index as int),
                )[slot],
        decreases 8 - index,
    {
        let ghost done = choice_table(genes@.take(index as int));
        let ghost upto = genes@.take(index + 1);
        assert(upto.drop_last() =~= genes@.take(index as int));
        assert(upto.last() == genes@[index as int]);
        let mut filled: u8 = 0;
        while filled < genes[index]
            invariant
                index < 8,
                filled <= genes@[index as int],
                table@.len() == done.len() + filled,
                forall|slot: int| 0 <= slot < done.len() ==> #[trigger] table@[slot] == done[slot],
                forall|slot: int|
                    done.len() <= slot < table@.len() ==> #[trigger] table@[slot] == index,
            decreases genes@[index as int] - filled,
        {
            table.push(index);
            filled = filled + 1;
        }
        index = index + 1;
    }
    proof {
        assert(genes@.take(8) =~= genes@);
        lemma_choice_table_shape(genes@);
    }
    table
}

} // verus!
