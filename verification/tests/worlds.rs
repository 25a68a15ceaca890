use darwin::game::Game;

/// The cells at one of the eight unit offsets from `(x, y)` on a grid whose
/// edges wrap around.
fn neighbours(x: u32, y: u32, width: u32, height: u32) -> Vec<(u32, u32)> {
    let mut cells = Vec::new();
    for dx in [width - 1, 0, 1] {
        for dy in [height - 1, 0, 1] {
            if dx != 0 || dy != 0 {
                cells.push(((x + dx) % width, (y + dy) % height));
            }
        }
    }
    cells
}

fn animals_at(game: &Game, x: u32, y: u32) -> usize {
    let mut count = 0;
    for i in 0..game.animal_count() {
        let a = game.get_animal(i);
        if a.get_x() == x && a.get_y() == y {
            count += 1;
        }
    }
    count
}

fn total_plants(game: &Game) -> u64 {
    let mut total = 0u64;
    for y in 0..game.get_height() as usize {
        for x in 0..game.get_width() as usize {
            total += game.get_plant_amount(x, y) as u64;
        }
    }
    total
}

fn count_symbol(game: &Game, symbol: char) -> usize {
    let mut count = 0;
    for y in 0..game.get_height() as usize {
        for x in 0..game.get_width() as usize {
            if game.get_single(x, y) == symbol {
                count += 1;
            }
        }
    }
    count
}

fn assert_display_in_step(game: &Game) {
    for y in 0..game.get_height() {
        for x in 0..game.get_width() {
            let expected = if animals_at(game, x, y) > 0 {
                'A'
            } else if game.get_plant_amount(x as usize, y as usize) > 0 {
                'P'
            } else {
                ' '
            };
            assert_eq!(game.get_single(x as usize, y as usize), expected);
        }
    }
}

#[test]
fn a_new_world_is_empty_but_for_the_founder() {
    let game = Game::new(10, 8, 60, 60, 1, 1, 2, 2);
    assert_eq!(game.get_width(), 10);
    assert_eq!(game.get_height(), 8);
    assert_eq!(game.animal_count(), 1);
    let founder = game.get_animal(0);
    assert_eq!((founder.get_x(), founder.get_y()), (5, 4));
    assert_eq!(founder.get_energy(), 1000);
    for y in 0..8 {
        for x in 0..10 {
            assert_eq!(game.get_single(x, y), ' ');
            assert_eq!(game.get_plant_amount(x, y), 0);
        }
    }
    let places = game.positions();
    assert_eq!(places.len(), 1);
    assert_eq!((places[0].get_x(), places[0].get_y()), (5, 4));
    assert!(game.has_room_to_grow());
}

#[test]
fn the_first_day_of_a_small_world() {
    for _ in 0..200 {
        let mut game = Game::new(10, 10, 60, 60, 1, 0, 0, 0);
        assert_eq!(game.animal_count(), 1);
        let founder = game.get_animal(0);
        assert_eq!((founder.get_x(), founder.get_y()), (5, 5));
        assert_eq!(founder.get_energy(), 1000);
        let heading = founder.get_direction();
        game.new_day();
        // The founder has far more energy than it needs to live and to
        // breed: it is still there, one step away, with one child beside it.
        assert_eq!(game.animal_count(), 2);
        let parent = game.get_animal(0);
        let child = game.get_animal(1);
        let offsets = [(4, 4), (5, 4), (6, 4), (6, 5), (6, 6), (5, 6), (4, 6), (4, 5)];
        assert_eq!((parent.get_x(), parent.get_y()), offsets[heading]);
        assert!(neighbours(5, 5, 10, 10).contains(&(parent.get_x(), parent.get_y())));
        assert_eq!(parent.get_genes(), founder.get_genes());
        assert_eq!((child.get_x(), child.get_y()), (parent.get_x(), parent.get_y()));
        // The one plant of the day grew under the founder and was eaten, or
        // it grew elsewhere and is still there.
        let fed = parent.get_energy() + child.get_energy();
        if total_plants(&game) == 0 {
            assert_eq!(fed, 1059);
            assert_eq!(child.get_energy(), 529);
            assert_eq!(count_symbol(&game, 'P'), 0);
        } else {
            assert_eq!(total_plants(&game), 1);
            assert_eq!(fed, 999);
            assert_eq!(child.get_energy(), 499);
            assert!(count_symbol(&game, 'P') <= 1);
        }
        assert_eq!(count_symbol(&game, 'A'), 1);
        assert_display_in_step(&game);
    }
}

#[test]
fn a_founder_that_cannot_breed_stays_alone() {
    for _ in 0..200 {
        let mut game = Game::new(10, 10, 60, 2000, 1, 0, 0, 0);
        game.new_day();
        assert_eq!(game.animal_count(), 1);
        let founder = game.get_animal(0);
        assert!(neighbours(5, 5, 10, 10).contains(&(founder.get_x(), founder.get_y())));
        if total_plants(&game) == 0 {
            assert_eq!(founder.get_energy(), 1059);
        } else {
            assert_eq!(total_plants(&game), 1);
            assert_eq!(founder.get_energy(), 999);
        }
        assert_eq!(count_symbol(&game, 'A'), 1);
        assert!(count_symbol(&game, 'P') <= 1);
        assert_display_in_step(&game);
    }
}

#[test]
fn set_single_writes_one_cell() {
    let mut game = Game::new(4, 3, 60, 60, 1, 0, 0, 0);
    game.set_single(3, 2, 'P');
    game.set_single(0, 0, 'A');
    for y in 0..3 {
        for x in 0..4 {
            let expected = match (x, y) {
                (3, 2) => 'P',
                (0, 0) => 'A',
                _ => ' ',
            };
            assert_eq!(game.get_single(x, y), expected);
        }
    }
    game.set_single(3, 2, ' ');
    assert_eq!(game.get_single(3, 2), ' ');
    assert_eq!(game.get_plant_amount(3, 2), 0);
    assert_eq!(game.animal_count(), 1);
}

#[test]
fn the_first_plant_of_a_cell_is_drawn() {
    let mut game = Game::new(4, 3, 60, 60, 1, 0, 0, 0);
    game.grow_plant(1, 2);
    assert_eq!(game.get_plant_amount(1, 2), 1);
    assert_eq!(game.get_single(1, 2), 'P');
    game.set_single(1, 2, ' ');
    game.grow_plant(1, 2);
    assert_eq!(game.get_plant_amount(1, 2), 2);
    assert_eq!(game.get_single(1, 2), ' ');
    assert_eq!(total_plants(&game), 2);
}

#[test]
fn eating_takes_one_plant_and_gives_its_energy() {
    let mut game = Game::new(4, 3, 75, 60, 1, 0, 0, 0);
    assert_eq!(game.eat_plant(1, 1), 0);
    assert_eq!(game.get_plant_amount(1, 1), 0);
    game.grow_plant(1, 1);
    game.grow_plant(1, 1);
    assert_eq!(game.eat_plant(1, 1), 75);
    assert_eq!(game.get_plant_amount(1, 1), 1);
    assert_eq!(game.get_single(1, 1), 'P');
    assert_eq!(game.eat_plant(1, 1), 75);
    assert_eq!(game.get_plant_amount(1, 1), 0);
    assert_eq!(game.get_single(1, 1), ' ');
    assert_eq!(game.eat_plant(1, 1), 0);
}

#[test]
fn the_founder_eats_what_grows_under_it() {
    let mut game = Game::new(9, 9, 70, 5000, 0, 0, 0, 0);
    game.grow_plant(4, 4);
    game.grow_plant(4, 4);
    game.update_animals();
    assert_eq!(game.animal_count(), 1);
    assert_eq!(game.get_animal(0).get_energy(), 1000 - 1 + 70);
    assert_eq!(game.get_plant_amount(4, 4), 1);
    assert_eq!(game.get_single(4, 4), 'P');
    assert_display_in_step(&game);
}

#[test]
fn a_meal_can_lift_an_animal_over_the_threshold() {
    let mut game = Game::new(9, 9, 70, 1050, 0, 0, 0, 0);
    game.grow_plant(4, 4);
    game.update_animals();
    assert_eq!(game.animal_count(), 2);
    assert_eq!(game.get_animal(0).get_energy(), 535);
    assert_eq!(game.get_animal(1).get_energy(), 534);
    assert_eq!(game.get_plant_amount(4, 4), 0);
    assert_eq!(game.get_single(4, 4), ' ');
    let mut hungry = Game::new(9, 9, 70, 1050, 0, 0, 0, 0);
    hungry.update_animals();
    assert_eq!(hungry.animal_count(), 1);
    assert_eq!(hungry.get_animal(0).get_energy(), 999);
}

#[test]
fn uncovering_shows_what_is_under_the_animals() {
    let mut game = Game::new(5, 5, 60, 60, 0, 0, 0, 0);
    game.mark_animals();
    assert_eq!(game.get_single(2, 2), 'A');
    assert_eq!(count_symbol(&game, 'A'), 1);
    game.uncover_animals();
    assert_eq!(game.get_single(2, 2), ' ');
    game.grow_plant(2, 2);
    game.mark_animals();
    assert_eq!(game.get_single(2, 2), 'A');
    game.uncover_animals();
    assert_eq!(game.get_single(2, 2), 'P');
    assert_eq!(count_symbol(&game, 'A'), 0);
}

#[test]
fn plants_grow_by_the_daily_numbers() {
    let mut game = Game::new(10, 10, 60, 60, 3, 2, 4, 4);
    for day in 1..=20u64 {
        game.generate_plants();
        assert_eq!(total_plants(&game), 5 * day);
    }
    assert_eq!(game.animal_count(), 1);
    for y in 0..10 {
        for x in 0..10 {
            let expected = if game.get_plant_amount(x, y) > 0 { 'P' } else { ' ' };
            assert_eq!(game.get_single(x, y), expected);
        }
    }
}

#[test]
fn forest_plants_grow_in_the_middle() {
    let mut game = Game::new(10, 9, 60, 60, 0, 4, 2, 3);
    for _ in 0..50 {
        game.generate_plants();
    }
    assert_eq!(total_plants(&game), 200);
    // The forest is 2 by 3 cells around the middle: columns 4 and 5, rows 3
    // to 5.
    for y in 0..9usize {
        for x in 0..10usize {
            let inside = (4..6).contains(&x) && (3..6).contains(&y);
            if inside {
                assert!(game.get_plant_amount(x, y) > 0);
            } else {
                assert_eq!(game.get_plant_amount(x, y), 0);
            }
        }
    }
}

#[test]
fn plants_grow_all_over_the_grid() {
    let mut game = Game::new(3, 2, 60, 60, 5, 0, 0, 0);
    for _ in 0..100 {
        game.generate_plants();
    }
    assert_eq!(total_plants(&game), 500);
    for y in 0..2 {
        for x in 0..3 {
            assert!(game.get_plant_amount(x, y) > 0);
        }
    }
}

#[test]
fn the_display_stays_in_step_with_the_world() {
    let mut game = Game::new(12, 9, 10, 30, 3, 2, 4, 3);
    for _ in 0..150 {
        assert!(game.has_room_to_grow());
        game.new_day();
        assert_display_in_step(&game);
        for i in 0..game.animal_count() {
            let a = game.get_animal(i);
            assert!(a.get_x() < 12 && a.get_y() < 9);
            assert!(a.get_genes().iter().all(|g| (1..=10).contains(g)));
            assert!(a.get_direction() < 8);
        }
    }
}

#[test]
fn the_population_is_what_was_less_the_dead_plus_the_born() {
    // Nothing grows, so an animal breeds exactly if its energy after the
    // day's unit is above the threshold.
    let mut game = Game::new(6, 6, 60, 100, 0, 0, 0, 0);
    let mut days_with_deaths = 0;
    let mut days_with_births = 0;
    for _ in 0..200 {
        let before = game.animal_count();
        let mut deaths = 0;
        let mut births = 0;
        for i in 0..before {
            let energy = game.get_animal(i).get_energy();
            if energy == 0 {
                deaths += 1;
            } else if energy - 1 > 100 {
                births += 1;
            }
        }
        game.new_day();
        assert_eq!(game.animal_count(), before - deaths + births);
        days_with_deaths += (deaths > 0) as u32;
        days_with_births += (births > 0) as u32;
    }
    assert!(days_with_deaths > 0);
    assert!(days_with_births > 0);
    assert_eq!(game.animal_count(), 0);
    assert_eq!(count_symbol(&game, 'A'), 0);
}

#[test]
fn survivors_keep_their_order_and_the_newborn_join_at_the_end() {
    let mut game = Game::new(6, 6, 60, 100, 0, 0, 0, 0);
    for _ in 0..120 {
        let before: Vec<_> = (0..game.animal_count()).map(|i| game.get_animal(i)).collect();
        game.new_day();
        let mut next = 0;
        let mut parents = Vec::new();
        for old in &before {
            if old.get_energy() == 0 {
                continue;
            }
            let now = game.get_animal(next);
            next += 1;
            assert_eq!(now.get_genes(), old.get_genes());
            let fed = old.get_energy() - 1;
            if fed > 100 {
                assert_eq!(now.get_energy(), fed - fed / 2);
                parents.push((now, fed / 2));
            } else {
                assert_eq!(now.get_energy(), fed);
            }
        }
        for (parent, energy) in parents {
            let child = game.get_animal(next);
            next += 1;
            assert_eq!(child.get_energy(), energy);
            assert_eq!((child.get_x(), child.get_y()), (parent.get_x(), parent.get_y()));
        }
        assert_eq!(next, game.animal_count());
    }
}

#[test]
fn a_world_with_one_cell_runs() {
    let mut game = Game::new(1, 1, 5, 2000, 2, 1, 1, 1);
    for day in 1..=30u32 {
        game.new_day();
        assert_eq!(game.animal_count(), 1);
        let a = game.get_animal(0);
        assert_eq!((a.get_x(), a.get_y()), (0, 0));
        // Three plants grow a day and the animal eats one of them.
        assert_eq!(game.get_plant_amount(0, 0), 2 * day);
        assert_eq!(a.get_energy(), 1000 + 4 * day);
        assert_eq!(game.get_single(0, 0), 'A');
    }
}

#[test]
fn a_world_without_room_for_a_day_of_plants_says_so() {
    let full = Game::new(3, 3, 60, 60, u32::MAX, 1, 1, 1);
    assert!(!full.has_room_to_grow());
    let mut tight = Game::new(3, 3, 60, 60, u32::MAX, 0, 0, 0);
    assert!(tight.has_room_to_grow());
    tight.grow_plant(2, 2);
    assert!(!tight.has_room_to_grow());
}
