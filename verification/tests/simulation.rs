use rustymold::genome::check_color;
use rustymold::genome::check_gene;
use rustymold::{Cell, Genome, Simulation};

const GREY: u32 = 0x808080;

fn genome_with(instructions: &[(usize, isize)]) -> Genome {
    let mut genes = vec![-2isize; 300];
    for &(location, gene) in instructions {
        genes[location] = gene;
    }
    Genome::from_genes(&genes, GREY).unwrap()
}

fn cells(sim: &Simulation) -> Vec<(usize, usize, Cell)> {
    let mut found = Vec::new();
    for x in 0..sim.size_x() {
        for y in 0..sim.size_y() {
            let cell = sim.cell(x, y);
            if cell != Cell::Empty {
                found.push((x, y, cell));
            }
        }
    }
    found
}

fn energies(sim: &Simulation) -> Vec<i32> {
    (0..sim.organisms()).map(|o| sim.energy(o)).collect()
}

fn tissue(organism: usize, age: u32, active_gene: u32, direction: u32) -> Cell {
    Cell::Tissue { organism, age, active_gene, direction }
}

fn spore(organism: usize, age: u32, direction: u32) -> Cell {
    Cell::Spore { organism, age, direction }
}

#[test]
fn a_new_grid_is_empty() {
    let sim = Simulation::new(10, 7, 16);
    assert_eq!(sim.size_x(), 10);
    assert_eq!(sim.size_y(), 7);
    assert_eq!(sim.energy_light, 16);
    assert_eq!(sim.organisms(), 0);
    assert!(cells(&sim).is_empty());
}

#[test]
fn the_smallest_grid_is_two_by_two() {
    let mut sim = Simulation::new(2, 2, -3);
    assert_eq!(sim.size_x(), 2);
    assert_eq!(sim.size_y(), 2);
    assert_eq!(sim.energy_light, -3);
    sim.update();
    assert!(cells(&sim).is_empty());
}

#[test]
fn place_founds_an_organism_without_energy() {
    let mut sim = Simulation::new(10, 10, 16);
    let genome = genome_with(&[(0, 5), (299, -1)]);
    assert!(sim.place(5, 5, genome));
    assert_eq!(sim.organisms(), 1);
    assert_eq!(sim.energy(0), 0);
    assert_eq!(sim.cell(5, 5), tissue(0, 0, 0, 0));
    assert_eq!(cells(&sim), vec![(5, 5, tissue(0, 0, 0, 0))]);
    assert_eq!(sim.genome(0).genes(), genome.genes());
    assert_eq!(sim.genome(0).color(), GREY);
    assert!(sim.place(0, 9, genome));
    assert_eq!(sim.organisms(), 2);
    assert_eq!(sim.cell(0, 9), tissue(1, 0, 0, 0));
}

#[test]
fn place_on_an_occupied_cell_changes_nothing() {
    let mut sim = Simulation::new(10, 10, 16);
    assert!(sim.place(5, 5, genome_with(&[(0, 5)])));
    sim.update();
    let before = cells(&sim);
    let before_energies = energies(&sim);
    for &(x, y, _) in &before {
        assert!(!sim.place(x, y, genome_with(&[])));
        assert!(!sim.generate_mold(x, y));
    }
    assert_eq!(cells(&sim), before);
    assert_eq!(energies(&sim), before_energies);
    assert_eq!(sim.organisms(), 1);
    assert_eq!(sim.genome(0).genes(), genome_with(&[(0, 5)]).genes());
}

#[test]
fn generate_mold_draws_a_valid_genome() {
    fastrand::seed(23);
    let mut sim = Simulation::new(10, 10, 16);
    assert!(sim.generate_mold(3, 4));
    assert_eq!(sim.cell(3, 4), tissue(0, 0, 0, 0));
    assert_eq!(sim.energy(0), 0);
    let genome = sim.genome(0);
    assert!(genome.genes().iter().all(|&g| check_gene(g)));
    assert!(check_color(genome.color()));
    fastrand::seed(23);
    let expected = Genome::new();
    assert_eq!(genome.genes(), expected.genes());
    assert_eq!(genome.color(), expected.color());
}

#[test]
fn generate_mold_on_an_occupied_cell_draws_nothing() {
    let mut sim = Simulation::new(10, 10, 16);
    assert!(sim.place(5, 5, genome_with(&[])));
    fastrand::seed(99);
    let expected = fastrand::u64(..);
    fastrand::seed(99);
    assert!(!sim.generate_mold(5, 5));
    assert_eq!(fastrand::u64(..), expected);
}

#[test]
fn clear_empties_the_grid_and_a_tick_leaves_it_so() {
    fastrand::seed(1);
    let mut sim = Simulation::new(12, 9, 16);
    for x in 0..12 {
        sim.generate_mold(x, (x * 5) % 9);
    }
    for _ in 0..30 {
        sim.update();
    }
    assert!(!cells(&sim).is_empty());
    sim.clear();
    assert!(cells(&sim).is_empty());
    assert_eq!(sim.organisms(), 0);
    assert_eq!(sim.size_x(), 12);
    assert_eq!(sim.size_y(), 9);
    assert_eq!(sim.energy_light, 16);
    for _ in 0..5 {
        sim.update();
        assert!(cells(&sim).is_empty());
        assert_eq!(sim.organisms(), 0);
    }
    assert!(sim.generate_mold(0, 0));
    assert_eq!(sim.cell(0, 0), tissue(0, 0, 0, 0));
}

#[test]
fn a_tick_of_an_empty_grid_changes_nothing() {
    let mut sim = Simulation::new(5, 4, 16);
    for _ in 0..10 {
        sim.update();
    }
    assert!(cells(&sim).is_empty());
    assert_eq!(sim.organisms(), 0);
}

#[test]
fn a_lone_cell_gains_light_from_its_four_neighbours() {
    let mut sim = Simulation::new(10, 10, 16);
    assert!(sim.place(5, 5, genome_with(&[])));
    sim.update();
    assert_eq!(sim.energy(0), 4 * 16 - 5);
    assert_eq!(cells(&sim), vec![(5, 5, tissue(0, 1, 0, 0))]);
    sim.update();
    assert_eq!(sim.energy(0), 2 * 59);
    assert_eq!(cells(&sim), vec![(5, 5, tissue(0, 2, 0, 0))]);
}

#[test]
fn an_organism_that_cannot_grow_stays_alone_and_starves_at_last() {
    let mut sim = Simulation::new(10, 10, 16);
    assert!(sim.place(5, 5, genome_with(&[])));
    let mut died_at = None;
    for tick in 1..=6000u32 {
        sim.update();
        let found = cells(&sim);
        match died_at {
            None => {
                if found.is_empty() {
                    died_at = Some(tick);
                    assert!(sim.energy(0) <= 0);
                } else {
                    assert_eq!(found, vec![(5, 5, tissue(0, tick, 0, 0))]);
                    assert!(sim.energy(0) > 0);
                }
            }
            Some(_) => assert!(found.is_empty()),
        }
        if tick == 50 {
            assert_eq!(sim.energy(0), 2950);
        }
        if tick == 2400 {
            assert_eq!(sim.energy(0), 75_600);
        }
    }
    assert_eq!(died_at, Some(4919));
    assert_eq!(sim.energy(0), -59);
    assert_eq!(sim.organisms(), 1);
}

#[test]
fn the_first_pass_ages_and_settles_energy_and_grows_nothing() {
    let mut sim = Simulation::new(10, 10, 16);
    assert!(sim.place(5, 5, genome_with(&[(0, 1), (1, 1), (2, 1)])));
    sim.age_all();
    assert_eq!(cells(&sim), vec![(5, 5, tissue(0, 1, 0, 0))]);
    assert_eq!(sim.energy(0), 59);
    sim.age_all();
    assert_eq!(cells(&sim), vec![(5, 5, tissue(0, 2, 0, 0))]);
    assert_eq!(sim.energy(0), 118);
}

#[test]
fn the_second_pass_removes_tissue_without_energy() {
    let mut sim = Simulation::new(10, 10, 16);
    assert!(sim.place(5, 5, genome_with(&[(0, 1), (1, 1), (2, 1)])));
    sim.grow_all();
    assert!(cells(&sim).is_empty());
    assert_eq!(sim.energy(0), 0);
}

#[test]
fn the_second_pass_grows_tissue_older_than_zero_only() {
    let mut sim = Simulation::new(10, 10, 16);
    assert!(sim.place(5, 5, genome_with(&[(0, 1), (1, 1), (2, 1)])));
    sim.distribute_energy(5, 6);
    sim.grow_all();
    assert_eq!(cells(&sim), vec![(5, 5, tissue(0, 0, 0, 0))]);
    sim.age_all();
    sim.grow_all();
    assert_eq!(
        cells(&sim),
        vec![
            (4, 5, tissue(0, 0, 1, 3)),
            (5, 5, tissue(0, 1, 0, 0)),
            (5, 6, tissue(0, 0, 1, 0)),
            (6, 5, tissue(0, 0, 1, 1)),
        ]
    );
    sim.grow_all();
    assert_eq!(cells(&sim).len(), 4);
}

#[test]
fn without_light_a_fresh_organism_dies_in_its_first_tick() {
    let mut sim = Simulation::new(10, 10, 0);
    assert!(sim.place(5, 5, genome_with(&[(0, 1), (1, 1), (2, 1)])));
    sim.update();
    assert!(cells(&sim).is_empty());
    assert_eq!(sim.energy(0), -5);
}

#[test]
fn tissue_grows_left_ahead_and_right_of_its_facing() {
    let mut sim = Simulation::new(10, 10, 16);
    let genome = genome_with(
        &[(0, 7), (1, 8), (2, -1), (21, 9), (22, 9), (23, 9), (24, 9), (25, 9), (26, 9)],
    );
    assert!(sim.place(5, 5, genome));
    sim.update();
    assert_eq!(
        cells(&sim),
        vec![
            (4, 5, tissue(0, 0, 7, 3)),
            (5, 5, tissue(0, 1, 0, 0)),
            (5, 6, tissue(0, 0, 8, 0)),
            (6, 5, spore(0, 0, 1)),
        ]
    );
    assert_eq!(sim.energy(0), 59);
    assert_eq!(sim.organisms(), 1);
}

#[test]
fn tissue_created_in_a_tick_grows_only_in_the_next() {
    let mut sim = Simulation::new(10, 10, 16);
    let genome = genome_with(
        &[(0, 7), (1, 8), (2, -1), (21, 9), (22, 9), (23, 9), (24, 9), (25, 9), (26, 9)],
    );
    assert!(sim.place(5, 5, genome));
    sim.update();
    assert_eq!(cells(&sim).len(), 4);
    sim.update();
    assert_eq!(
        cells(&sim),
        vec![
            (3, 5, tissue(0, 0, 9, 3)),
            (4, 4, tissue(0, 0, 9, 2)),
            (4, 5, tissue(0, 1, 7, 3)),
            (4, 6, tissue(0, 0, 9, 0)),
            (5, 5, tissue(0, 2, 0, 0)),
            (5, 6, tissue(0, 1, 8, 0)),
            (5, 7, tissue(0, 0, 9, 0)),
            (6, 5, spore(0, 1, 1)),
            (6, 6, tissue(0, 0, 9, 1)),
        ]
    );
    assert_eq!(sim.energy(0), 167);
}

#[test]
fn growth_wraps_around_the_edges() {
    let mut sim = Simulation::new(4, 3, 16);
    assert!(sim.place(0, 0, genome_with(&[(0, 7), (1, 8), (2, -1)])));
    sim.update();
    assert_eq!(
        cells(&sim),
        vec![
            (0, 0, tissue(0, 1, 0, 0)),
            (0, 1, tissue(0, 0, 8, 0)),
            (1, 0, spore(0, 0, 1)),
            (3, 0, tissue(0, 0, 7, 3)),
        ]
    );
}

#[test]
fn on_a_two_by_two_grid_the_first_growth_takes_the_cell() {
    let mut sim = Simulation::new(2, 2, 16);
    assert!(sim.place(0, 0, genome_with(&[(0, 7), (1, 8), (2, -1)])));
    sim.update();
    // both neighbours along each axis are one cell: it counts once for light,
    // and the spore finds its target taken
    assert_eq!(sim.energy(0), 2 * 16 - 5);
    assert_eq!(
        cells(&sim),
        vec![(0, 0, tissue(0, 1, 0, 0)), (0, 1, tissue(0, 0, 8, 0)), (1, 0, tissue(0, 0, 7, 3))]
    );
}

#[test]
fn growth_does_not_overwrite_an_occupied_cell() {
    let mut sim = Simulation::new(10, 10, 16);
    assert!(sim.place(5, 5, genome_with(&[(0, 7), (1, 8), (2, 9)])));
    assert!(sim.place(5, 6, genome_with(&[])));
    sim.update();
    assert_eq!(
        cells(&sim),
        vec![
            (4, 5, tissue(0, 0, 7, 3)),
            (5, 5, tissue(0, 1, 0, 0)),
            (5, 6, tissue(1, 1, 0, 0)),
            (6, 5, tissue(0, 0, 9, 1)),
        ]
    );
}

#[test]
fn an_empty_cell_between_two_organisms_gives_no_light() {
    let mut sim = Simulation::new(10, 10, 16);
    assert!(sim.place(5, 5, genome_with(&[])));
    assert!(sim.place(5, 7, genome_with(&[])));
    sim.update();
    // each has three empty neighbours of its own; (5, 6) borders both
    assert_eq!(energies(&sim), vec![3 * 16 - 5, 3 * 16 - 5]);
}

#[test]
fn distribute_energy_rewards_the_only_neighbour() {
    let mut sim = Simulation::new(10, 10, 16);
    assert!(sim.place(1, 1, genome_with(&[])));
    assert!(sim.place(5, 5, genome_with(&[])));
    sim.distribute_energy(5, 6);
    assert_eq!(energies(&sim), vec![0, 16]);
    sim.distribute_energy(4, 5);
    sim.distribute_energy(6, 5);
    sim.distribute_energy(5, 4);
    assert_eq!(energies(&sim), vec![0, 64]);
    sim.distribute_energy(1, 0);
    assert_eq!(energies(&sim), vec![16, 64]);
    sim.distribute_energy(8, 8);
    sim.distribute_energy(6, 6);
    assert_eq!(energies(&sim), vec![16, 64]);
    assert_eq!(cells(&sim), vec![(1, 1, tissue(0, 0, 0, 0)), (5, 5, tissue(1, 0, 0, 0))]);
}

#[test]
fn distribute_energy_gives_nothing_where_two_organisms_meet() {
    let mut sim = Simulation::new(10, 10, 16);
    assert!(sim.place(5, 5, genome_with(&[])));
    assert!(sim.place(5, 7, genome_with(&[])));
    sim.distribute_energy(5, 6);
    assert_eq!(energies(&sim), vec![0, 0]);
    assert!(sim.place(4, 6, genome_with(&[])));
    assert!(sim.place(6, 6, genome_with(&[])));
    sim.distribute_energy(5, 6);
    assert_eq!(energies(&sim), vec![0, 0, 0, 0]);
}

#[test]
fn one_organism_on_several_sides_counts_once() {
    let mut sim = Simulation::new(10, 10, 16);
    assert!(sim.place(5, 5, genome_with(&[(0, 7), (1, 8), (2, 9), (24, 3)])));
    sim.update();
    // cells of organism 0: (4,5), (5,5), (5,6), (6,5); (4,6) borders two of them
    let before = sim.energy(0);
    sim.distribute_energy(4, 6);
    assert_eq!(sim.energy(0), before + 16);
    sim.distribute_energy(6, 6);
    assert_eq!(sim.energy(0), before + 32);
}

#[test]
fn the_energy_counter_wraps_around() {
    let mut sim = Simulation::new(10, 10, i32::MAX);
    assert!(sim.place(5, 5, genome_with(&[])));
    sim.distribute_energy(5, 6);
    assert_eq!(sim.energy(0), i32::MAX);
    sim.distribute_energy(5, 6);
    assert_eq!(sim.energy(0), -2);
    sim.energy_light = i32::MIN;
    sim.distribute_energy(5, 6);
    assert_eq!(sim.energy(0), i32::MAX - 1);
}

#[test]
fn the_light_level_can_be_changed_between_ticks() {
    let mut sim = Simulation::new(10, 10, 16);
    assert!(sim.place(5, 5, genome_with(&[])));
    sim.update();
    assert_eq!(sim.energy(0), 59);
    sim.energy_light = 1;
    sim.update();
    assert_eq!(sim.energy(0), 59 + 4 - 5);
    sim.energy_light = -10;
    sim.update();
    assert_eq!(sim.energy(0), 58 - 40 - 5);
    sim.set_light(3);
    assert_eq!(sim.energy_light, 3);
    sim.update();
    assert_eq!(sim.energy(0), 13 + 12 - 5);
    assert_eq!(sim.cell(5, 5), tissue(0, 4, 0, 0));
}

#[test]
fn a_young_spore_starves_with_its_organism() {
    let mut sim = Simulation::new(10, 10, 16);
    assert!(sim.place(5, 5, genome_with(&[(0, -1)])));
    sim.update();
    assert_eq!(cells(&sim), vec![(4, 5, spore(0, 0, 3)), (5, 5, tissue(0, 1, 0, 0))]);
    assert_eq!(sim.energy(0), 59);
    sim.energy_light = 0;
    for tick in 2..7u32 {
        sim.update();
        assert_eq!(
            cells(&sim),
            vec![(4, 5, spore(0, tick - 1, 3)), (5, 5, tissue(0, tick, 0, 0))]
        );
    }
    sim.update();
    assert!(cells(&sim).is_empty());
    assert_eq!(sim.energy(0), -1);
    assert_eq!(sim.organisms(), 1);
}

#[test]
fn a_ripe_spore_germinates_when_its_organism_starves() {
    fastrand::seed(7);
    let mut sim = Simulation::new(10, 10, 16);
    let parent = genome_with(&[(0, -1)]);
    assert!(sim.place(5, 5, parent));
    sim.update();
    assert_eq!(cells(&sim), vec![(4, 5, spore(0, 0, 3)), (5, 5, tissue(0, 1, 0, 0))]);
    sim.update();
    assert_eq!(sim.energy(0), 145);
    for tick in 3..3639u32 {
        sim.update();
        assert_eq!(
            cells(&sim),
            vec![(4, 5, spore(0, tick - 1, 3)), (5, 5, tissue(0, tick, 0, 0))]
        );
        assert!(sim.energy(0) > 0);
        assert_eq!(sim.organisms(), 1);
    }
    sim.update();
    assert_eq!(cells(&sim), vec![(4, 5, tissue(1, 0, 0, 3))]);
    assert_eq!(sim.organisms(), 2);
    assert_eq!(energies(&sim), vec![-3, 0]);
    let child = sim.genome(1);
    let genes = child.genes();
    assert_eq!(sim.genome(0).genes(), parent.genes());
    let changed: Vec<usize> = (0..300).filter(|&i| genes[i] != parent.genes()[i]).collect();
    assert!(changed.len() <= 1);
    assert!(genes.iter().all(|&g| check_gene(g)));
    assert!(check_color(child.color()));
    sim.update();
    assert_eq!(sim.cell(4, 5), tissue(1, 1, 0, 3));
    assert_eq!(sim.energy(0), -3);
}

#[test]
fn germination_draws_the_child_as_make_mutation_does() {
    for seed in 0..3u64 {
        let parent = genome_with(&[(0, -1)]);
        fastrand::seed(seed);
        let expected = parent.make_mutation();
        let mut sim = Simulation::new(10, 10, 16);
        assert!(sim.place(5, 5, parent));
        for _ in 0..3638 {
            sim.update();
        }
        assert_eq!(sim.organisms(), 1);
        fastrand::seed(seed);
        sim.update();
        assert_eq!(sim.organisms(), 2);
        assert_eq!(sim.genome(1).genes(), expected.genes());
        assert_eq!(sim.genome(1).color(), expected.color());
    }
}

#[test]
fn many_molds_keep_the_grid_consistent() {
    fastrand::seed(4);
    let mut sim = Simulation::new(40, 30, 16);
    for x in (5..40).step_by(10) {
        for y in (5..30).step_by(10) {
            assert!(sim.generate_mold(x, y));
        }
    }
    assert_eq!(sim.organisms(), 12);
    for _ in 0..300 {
        let before = sim.organisms();
        sim.update();
        assert!(sim.organisms() >= before);
        for (_, _, cell) in cells(&sim) {
            match cell {
                Cell::Empty => unreachable!(),
                Cell::Spore { organism, direction, .. } => {
                    assert!(organism < sim.organisms());
                    assert!(direction < 4);
                }
                Cell::Tissue { organism, active_gene, direction, .. } => {
                    assert!(organism < sim.organisms());
                    assert!(active_gene < 100);
                    assert!(direction < 4);
                }
            }
        }
    }
}
