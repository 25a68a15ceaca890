use darwin::animal::Animal;
use darwin::genes::{direction_table, genes_are_valid};

const EVEN: [u8; 8] = [5, 5, 5, 5, 5, 5, 5, 5];

fn animal(x: u32, y: u32, energy: u32, genes: [u8; 8], direction: usize) -> Animal {
    Animal::from_parts(x, y, energy, genes, direction).unwrap()
}

fn moved(x: u32, y: u32, direction: usize, width: u32, height: u32) -> (u32, u32) {
    let mut a = animal(x, y, 10, EVEN, direction);
    a.move_animal(width, height);
    (a.get_x(), a.get_y())
}

/// The number of genes in which `child` differs from `parent`, if each of
/// them differs by exactly one.
fn single_steps(parent: &[u8; 8], child: &[u8; 8]) -> Option<usize> {
    let mut changed = 0;
    for i in 0..8 {
        if parent[i] != child[i] {
            if parent[i] + 1 != child[i] && child[i] + 1 != parent[i] {
                return None;
            }
            changed += 1;
        }
    }
    Some(changed)
}

#[test]
fn from_parts_keeps_every_part() {
    let genes = [1, 2, 3, 4, 5, 6, 7, 10];
    let a = animal(3, 4, 77, genes, 6);
    assert_eq!(a.get_x(), 3);
    assert_eq!(a.get_y(), 4);
    assert_eq!(a.get_energy(), 77);
    assert_eq!(a.get_genes(), genes);
    assert_eq!(a.get_direction(), 6);
}

#[test]
fn from_parts_refuses_genes_out_of_bounds() {
    assert!(Animal::from_parts(0, 0, 1, [0, 5, 5, 5, 5, 5, 5, 5], 0).is_none());
    assert!(Animal::from_parts(0, 0, 1, [5, 5, 5, 5, 5, 5, 5, 11], 0).is_none());
    assert!(Animal::from_parts(0, 0, 1, [5, 5, 5, 255, 5, 5, 5, 5], 0).is_none());
    assert!(Animal::from_parts(0, 0, 1, [1, 10, 1, 10, 1, 10, 1, 10], 0).is_some());
}

#[test]
fn from_parts_refuses_a_direction_that_is_none() {
    assert!(Animal::from_parts(0, 0, 1, EVEN, 8).is_none());
    assert!(Animal::from_parts(0, 0, 1, EVEN, usize::MAX).is_none());
    assert!(Animal::from_parts(0, 0, 1, EVEN, 7).is_some());
}

#[test]
fn genes_are_valid_between_one_and_ten() {
    assert!(genes_are_valid(&[1, 1, 1, 1, 1, 1, 1, 1]));
    assert!(genes_are_valid(&[10, 10, 10, 10, 10, 10, 10, 10]));
    assert!(genes_are_valid(&[1, 2, 3, 4, 5, 6, 7, 8]));
    assert!(!genes_are_valid(&[1, 2, 3, 4, 0, 6, 7, 8]));
    assert!(!genes_are_valid(&[11, 2, 3, 4, 5, 6, 7, 8]));
}

#[test]
fn each_direction_has_its_offset() {
    assert_eq!(moved(5, 5, 0, 10, 10), (4, 4));
    assert_eq!(moved(5, 5, 1, 10, 10), (5, 4));
    assert_eq!(moved(5, 5, 2, 10, 10), (6, 4));
    assert_eq!(moved(5, 5, 3, 10, 10), (6, 5));
    assert_eq!(moved(5, 5, 4, 10, 10), (6, 6));
    assert_eq!(moved(5, 5, 5, 10, 10), (5, 6));
    assert_eq!(moved(5, 5, 6, 10, 10), (4, 6));
    assert_eq!(moved(5, 5, 7, 10, 10), (4, 5));
}

#[test]
fn moving_left_from_the_first_column_wraps_to_the_last() {
    assert_eq!(moved(0, 3, 7, 10, 7), (9, 3));
    assert_eq!(moved(0, 3, 0, 10, 7), (9, 2));
    assert_eq!(moved(0, 3, 6, 10, 7), (9, 4));
}

#[test]
fn moving_right_from_the_last_column_wraps_to_the_first() {
    assert_eq!(moved(9, 3, 3, 10, 7), (0, 3));
    assert_eq!(moved(9, 3, 2, 10, 7), (0, 2));
    assert_eq!(moved(9, 3, 4, 10, 7), (0, 4));
}

#[test]
fn moving_up_from_the_first_row_wraps_to_the_last() {
    assert_eq!(moved(4, 0, 1, 10, 7), (4, 6));
    assert_eq!(moved(4, 0, 0, 10, 7), (3, 6));
    assert_eq!(moved(4, 0, 2, 10, 7), (5, 6));
}

#[test]
fn moving_down_from_the_last_row_wraps_to_the_first() {
    assert_eq!(moved(4, 6, 5, 10, 7), (4, 0));
    assert_eq!(moved(4, 6, 4, 10, 7), (5, 0));
    assert_eq!(moved(4, 6, 6, 10, 7), (3, 0));
}

#[test]
fn corners_wrap_on_both_axes() {
    assert_eq!(moved(0, 0, 0, 10, 7), (9, 6));
    assert_eq!(moved(9, 6, 4, 10, 7), (0, 0));
    assert_eq!(moved(9, 0, 2, 10, 7), (0, 6));
    assert_eq!(moved(0, 6, 6, 10, 7), (9, 0));
}

#[test]
fn no_move_leaves_the_grid() {
    let (width, height) = (4, 3);
    for x in 0..width {
        for y in 0..height {
            for direction in 0..8 {
                let (nx, ny) = moved(x, y, direction, width, height);
                assert!(nx < width && ny < height);
                let dx = (nx + width - x) % width;
                let dy = (ny + height - y) % height;
                assert!(dx == 0 || dx == 1 || dx == width - 1);
                assert!(dy == 0 || dy == 1 || dy == height - 1);
                assert!(dx != 0 || dy != 0);
            }
        }
    }
}

#[test]
fn on_a_single_cell_every_move_comes_back() {
    for direction in 0..8 {
        assert_eq!(moved(0, 0, direction, 1, 1), (0, 0));
    }
}

#[test]
fn a_move_changes_nothing_but_the_position() {
    let genes = [1, 2, 3, 4, 5, 6, 7, 8];
    let mut a = animal(2, 2, 42, genes, 3);
    a.move_animal(5, 5);
    assert_eq!(a.get_energy(), 42);
    assert_eq!(a.get_genes(), genes);
    assert_eq!(a.get_direction(), 3);
}

#[test]
fn fix_position_takes_the_remainder() {
    let mut a = animal(10, 7, 1, EVEN, 0);
    a.fix_position(10, 7);
    assert_eq!((a.get_x(), a.get_y()), (0, 0));
    let mut b = animal(23, 4, 1, EVEN, 0);
    b.fix_position(10, 7);
    assert_eq!((b.get_x(), b.get_y()), (3, 4));
    let mut c = animal(9, 6, 1, EVEN, 0);
    c.fix_position(10, 7);
    assert_eq!((c.get_x(), c.get_y()), (9, 6));
}

#[test]
fn a_gene_of_one_mutates_to_two() {
    for up in [false, true] {
        let mut a = animal(0, 0, 1, [1, 5, 5, 5, 5, 5, 5, 5], 0);
        a.shift_gene(0, up);
        assert_eq!(a.get_genes(), [2, 5, 5, 5, 5, 5, 5, 5]);
    }
}

#[test]
fn a_gene_of_ten_mutates_to_nine() {
    for up in [false, true] {
        let mut a = animal(0, 0, 1, [5, 5, 5, 5, 5, 5, 5, 10], 0);
        a.shift_gene(7, up);
        assert_eq!(a.get_genes(), [5, 5, 5, 5, 5, 5, 5, 9]);
    }
}

#[test]
fn a_gene_in_between_mutates_either_way() {
    for gene in 2..=9u8 {
        let mut genes = EVEN;
        genes[3] = gene;
        let mut a = animal(0, 0, 1, genes, 0);
        a.shift_gene(3, true);
        assert_eq!(a.get_genes()[3], gene + 1);
        let mut b = animal(0, 0, 1, genes, 0);
        b.shift_gene(3, false);
        assert_eq!(b.get_genes()[3], gene - 1);
    }
}

#[test]
fn shift_gene_leaves_the_other_genes_alone() {
    let mut a = animal(1, 2, 3, [1, 2, 3, 4, 5, 6, 7, 8], 4);
    a.shift_gene(2, true);
    assert_eq!(a.get_genes(), [1, 2, 4, 4, 5, 6, 7, 8]);
    assert_eq!((a.get_x(), a.get_y(), a.get_energy(), a.get_direction()), (1, 2, 3, 4));
}

#[test]
fn mutate_changes_exactly_one_gene_by_one() {
    let mut a = animal(0, 0, 1, [1, 10, 1, 10, 5, 5, 2, 9], 0);
    for _ in 0..2000 {
        let before = a.get_genes();
        a.mutate();
        let after = a.get_genes();
        assert!(genes_are_valid(&after));
        assert_eq!(single_steps(&before, &after), Some(1));
    }
}

#[test]
fn mutate_reaches_every_gene_and_both_ways() {
    let mut hit = [false; 8];
    let mut up = false;
    let mut down = false;
    for _ in 0..2000 {
        let mut a = animal(0, 0, 1, EVEN, 0);
        a.mutate();
        let genes = a.get_genes();
        for i in 0..8 {
            if genes[i] != 5 {
                hit[i] = true;
                up = up || genes[i] == 6;
                down = down || genes[i] == 4;
            }
        }
    }
    assert_eq!(hit, [true; 8]);
    assert!(up && down);
}

#[test]
fn mutate_changes_nothing_but_the_genes() {
    let mut a = animal(6, 7, 8, EVEN, 2);
    a.mutate();
    assert_eq!((a.get_x(), a.get_y(), a.get_energy(), a.get_direction()), (6, 7, 8, 2));
}

#[test]
fn a_founder_has_valid_genes_and_faces_a_direction() {
    for _ in 0..500 {
        let a = Animal::new(5, 6, 1000);
        assert_eq!((a.get_x(), a.get_y(), a.get_energy()), (5, 6, 1000));
        assert!(genes_are_valid(&a.get_genes()));
        assert!(a.get_direction() < 8);
    }
}

#[test]
fn founders_draw_every_gene_value() {
    let mut seen = [false; 11];
    for _ in 0..500 {
        for gene in Animal::new(0, 0, 1).get_genes() {
            seen[gene as usize] = true;
        }
    }
    assert!(!seen[0]);
    assert!(seen[1..].iter().all(|s| *s));
}

#[test]
fn a_child_carries_the_genes_after_one_mutation() {
    let genes = [1, 10, 3, 4, 5, 6, 7, 8];
    for _ in 0..500 {
        let child = Animal::new_child(2, 3, 44, &genes);
        assert_eq!((child.get_x(), child.get_y(), child.get_energy()), (2, 3, 44));
        assert!(genes_are_valid(&child.get_genes()));
        assert_eq!(single_steps(&genes, &child.get_genes()), Some(1));
        assert!(child.get_direction() < 8);
    }
}

#[test]
fn energy_at_the_threshold_breeds_nothing() {
    let mut a = animal(1, 1, 60, EVEN, 0);
    assert!(a.reproduce(60).is_none());
    assert_eq!(a.get_energy(), 60);
    assert_eq!(a.get_genes(), EVEN);
    let mut b = animal(1, 1, 0, EVEN, 0);
    assert!(b.reproduce(0).is_none());
    assert_eq!(b.get_energy(), 0);
}

#[test]
fn energy_above_the_threshold_breeds_one_child() {
    let mut a = animal(4, 2, 61, EVEN, 3);
    let child = a.reproduce(60).unwrap();
    assert_eq!(child.get_energy(), 30);
    assert_eq!(a.get_energy(), 31);
    assert_eq!(a.get_energy() + child.get_energy(), 61);
    assert_eq!((child.get_x(), child.get_y()), (4, 2));
    assert_eq!((a.get_x(), a.get_y(), a.get_direction()), (4, 2, 3));
    assert_eq!(a.get_genes(), EVEN);
    assert_eq!(single_steps(&EVEN, &child.get_genes()), Some(1));
}

#[test]
fn an_even_split_gives_both_the_same() {
    let mut a = animal(0, 0, 1000, EVEN, 0);
    let child = a.reproduce(60).unwrap();
    assert_eq!(child.get_energy(), 500);
    assert_eq!(a.get_energy(), 500);
}

#[test]
fn the_split_loses_no_energy() {
    for energy in 1..200u32 {
        let mut a = animal(0, 0, energy, EVEN, 0);
        let child = a.reproduce(0).unwrap();
        assert_eq!(child.get_energy(), energy / 2);
        assert_eq!(a.get_energy() + child.get_energy(), energy);
    }
}

#[test]
fn an_animal_without_energy_dies_unchanged() {
    let genes = [1, 2, 3, 4, 5, 6, 7, 8];
    let mut a = animal(3, 4, 0, genes, 4);
    assert!(!a.new_day(10, 10));
    assert_eq!((a.get_x(), a.get_y(), a.get_energy()), (3, 4, 0));
    assert_eq!(a.get_genes(), genes);
    assert_eq!(a.get_direction(), 4);
}

#[test]
fn an_animal_with_energy_spends_one_unit_and_moves() {
    let mut a = animal(3, 4, 5, EVEN, 4);
    assert!(a.new_day(10, 10));
    assert_eq!((a.get_x(), a.get_y(), a.get_energy()), (4, 5, 4));
    assert_eq!(a.get_genes(), EVEN);
    assert!(a.get_direction() < 8);
}

#[test]
fn the_last_unit_of_energy_still_buys_a_day() {
    let mut a = animal(0, 0, 1, EVEN, 7);
    assert!(a.new_day(3, 3));
    assert_eq!((a.get_x(), a.get_y(), a.get_energy()), (2, 0, 0));
    assert!(!a.new_day(3, 3));
    assert_eq!((a.get_x(), a.get_y(), a.get_energy()), (2, 0, 0));
}

#[test]
fn eat_adds_the_energy() {
    let mut a = animal(0, 0, 5, EVEN, 0);
    a.eat(60);
    assert_eq!(a.get_energy(), 65);
    a.eat(0);
    assert_eq!(a.get_energy(), 65);
}

#[test]
fn the_direction_table_repeats_each_direction_by_its_gene() {
    let table = direction_table(&[1, 2, 3, 1, 1, 1, 1, 2]);
    assert_eq!(table, vec![0, 1, 1, 2, 2, 2, 3, 4, 5, 6, 7, 7]);
    let even = direction_table(&EVEN);
    assert_eq!(even.len(), 40);
    for slot in 0..40 {
        assert_eq!(even[slot], slot / 5);
    }
}

#[test]
fn direction_for_slot_reads_the_table() {
    let a = animal(0, 0, 1, [1, 2, 3, 1, 1, 1, 1, 2], 0);
    let expected = [0, 1, 1, 2, 2, 2, 3, 4, 5, 6, 7, 7];
    for slot in 0..12 {
        assert_eq!(a.direction_for_slot(slot), expected[slot]);
    }
}

#[test]
fn determine_direction_follows_the_weights() {
    let a = animal(0, 0, 1, [1, 1, 1, 10, 1, 1, 1, 1], 0);
    let mut counts = [0u32; 8];
    for _ in 0..3400 {
        let d = a.determine_direction();
        assert!(d < 8);
        counts[d] += 1;
    }
    for d in 0..8 {
        assert!(counts[d] > 0);
    }
    assert!(counts[3] > 1500 && counts[3] < 2500);
}
