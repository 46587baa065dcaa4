use rustymold::chance::{falls_below_one_in, FRACTION_SCALE};
use rustymold::genome::{
    check_color, check_gene, generate_gene, pack_color, random_color, Genome, CHANNEL_MAX,
    CHANNEL_MIN, GENE_COUNT, GENOME_SIZE, MUTATION_ONE_IN, NO_GROWTH, SPORE_GENE, SPORE_ONE_IN,
    STOP_ONE_IN,
};

const GREY: u32 = 0x808080;

fn channels(color: u32) -> (u32, u32, u32) {
    ((color >> 16) & 0xff, (color >> 8) & 0xff, color & 0xff)
}

fn draw_color() -> u32 {
    let r = 10 + fastrand::u32(0..=235);
    let g = 10 + fastrand::u32(0..=235);
    let b = 10 + fastrand::u32(0..=235);
    (r << 16) | (g << 8) | b
}

fn draw_gene() -> isize {
    if (fastrand::u32(..) as u64) * 2 < (1u64 << 32) {
        -2
    } else if (fastrand::u32(..) as u64) * 100 < (1u64 << 32) {
        -1
    } else {
        fastrand::isize(0..=99)
    }
}

#[test]
fn a_half_is_the_threshold_of_one_in_two() {
    assert!(falls_below_one_in(0, 2));
    assert!(falls_below_one_in(0x7FFF_FFFF, 2));
    assert!(!falls_below_one_in(0x8000_0000, 2));
    assert!(!falls_below_one_in(u32::MAX, 2));
}

#[test]
fn a_hundredth_is_the_threshold_of_one_in_a_hundred() {
    // 2^32 / 100 = 42949672.96
    assert!(falls_below_one_in(42_949_672, 100));
    assert!(!falls_below_one_in(42_949_673, 100));
}

#[test]
fn a_fiftieth_is_the_threshold_of_one_in_fifty() {
    // 2^32 / 50 = 85899345.92
    assert!(falls_below_one_in(85_899_345, 50));
    assert!(!falls_below_one_in(85_899_346, 50));
}

#[test]
fn chance_edge_cases() {
    assert!(falls_below_one_in(0, 1));
    assert!(falls_below_one_in(u32::MAX, 1));
    assert!(falls_below_one_in(0, 0));
    assert!(falls_below_one_in(u32::MAX, 0));
    assert!(falls_below_one_in(0, u32::MAX));
    assert!(falls_below_one_in(1, u32::MAX));
    assert!(!falls_below_one_in(2, u32::MAX));
    assert_eq!(FRACTION_SCALE, 4_294_967_296);
}

#[test]
fn the_constants_of_a_genome() {
    assert_eq!(STOP_ONE_IN, 2);
    assert_eq!(SPORE_ONE_IN, 100);
    assert_eq!(MUTATION_ONE_IN, 50);
    assert_eq!(GENOME_SIZE, 100);
    assert_eq!(GENE_COUNT, 3 * GENOME_SIZE);
    assert_eq!(NO_GROWTH, -2);
    assert_eq!(SPORE_GENE, -1);
    assert_eq!(CHANNEL_MIN, 10);
    assert_eq!(CHANNEL_MAX, 245);
}

#[test]
fn pack_color_puts_red_highest() {
    assert_eq!(pack_color(10, 20, 30), 0x000A_141E);
    assert_eq!(pack_color(0, 0, 0), 0);
    assert_eq!(pack_color(255, 255, 255), 0x00FF_FFFF);
    assert_eq!(pack_color(245, 10, 128), 0x00F5_0A80);
}

#[test]
fn check_color_wants_every_channel_in_range() {
    assert!(check_color(0x000A_0A0A));
    assert!(check_color(0x00F5_F5F5));
    assert!(check_color(GREY));
    assert!(!check_color(0x0009_0A0A));
    assert!(!check_color(0x000A_090A));
    assert!(!check_color(0x000A_0A09));
    assert!(!check_color(0x00F6_0A0A));
    assert!(!check_color(0x000A_F60A));
    assert!(!check_color(0x000A_0AF6));
    assert!(!check_color(0x0100_0000 | GREY));
    assert!(!check_color(0));
    assert!(!check_color(u32::MAX));
}

#[test]
fn check_gene_accepts_stop_spore_and_gene_numbers() {
    assert!(check_gene(-2));
    assert!(check_gene(-1));
    assert!(check_gene(0));
    assert!(check_gene(99));
    assert!(!check_gene(100));
    assert!(!check_gene(-3));
    assert!(!check_gene(isize::MAX));
    assert!(!check_gene(isize::MIN));
}

#[test]
fn from_genes_keeps_what_it_is_given() {
    let mut genes = vec![-2isize; 300];
    genes[0] = -1;
    genes[150] = 42;
    genes[299] = 99;
    let genome = Genome::from_genes(&genes, 0x000A_80F5).expect("a valid genome");
    assert_eq!(genome.genes(), genes);
    assert_eq!(genome.color(), 0x000A_80F5);
    assert_eq!(genome.instruction(0, 0), -1);
    assert_eq!(genome.instruction(50, 0), 42);
    assert_eq!(genome.instruction(99, 2), 99);
    assert_eq!(genome.instruction(99, 1), -2);
}

#[test]
fn from_genes_refuses_a_wrong_length() {
    assert!(Genome::from_genes(&vec![-2isize; 299], GREY).is_none());
    assert!(Genome::from_genes(&vec![-2isize; 301], GREY).is_none());
    assert!(Genome::from_genes(&Vec::new(), GREY).is_none());
    assert!(Genome::from_genes(&vec![-2isize; 300], GREY).is_some());
}

#[test]
fn from_genes_refuses_an_instruction_out_of_range() {
    for location in [0usize, 1, 150, 299] {
        for bad in [100isize, -3, 1000, isize::MIN] {
            let mut genes = vec![0isize; 300];
            genes[location] = bad;
            assert!(Genome::from_genes(&genes, GREY).is_none());
        }
    }
}

#[test]
fn from_genes_refuses_a_color_out_of_range() {
    let genes = vec![0isize; 300];
    assert!(Genome::from_genes(&genes, 0).is_none());
    assert!(Genome::from_genes(&genes, 0x0009_8080).is_none());
    assert!(Genome::from_genes(&genes, 0x0080_80F6).is_none());
    assert!(Genome::from_genes(&genes, 0xFF80_8080).is_none());
}

#[test]
fn mutated_changes_the_color_and_one_instruction() {
    let mut genes = vec![-2isize; 300];
    genes[7] = 5;
    let parent = Genome::from_genes(&genes, GREY).unwrap();
    let child = parent.mutated(0x000A_0B0C, 7, -1);
    let mut expected = genes.clone();
    expected[7] = -1;
    assert_eq!(child.genes(), expected);
    assert_eq!(child.color(), 0x000A_0B0C);
    assert_eq!(parent.genes(), genes);
    assert_eq!(parent.color(), GREY);
    let last = parent.mutated(GREY, 299, 99);
    assert_eq!(last.genes()[299], 99);
    assert_eq!(last.genes()[..299], genes[..299]);
}

#[test]
fn drawn_genes_are_instructions() {
    fastrand::seed(11);
    let mut stops = 0;
    let mut spores = 0;
    let mut grows = 0;
    let mut inner = false;
    for _ in 0..20_000 {
        let gene = generate_gene();
        assert!(gene == -2 || gene == -1 || (0..100).contains(&gene));
        match gene {
            -2 => stops += 1,
            -1 => spores += 1,
            _ => {
                grows += 1;
                if gene != 0 && gene != 99 {
                    inner = true;
                }
            }
        }
    }
    // about a half stop, about one in two hundred leaves a spore
    assert!(stops > 9_000 && stops < 11_000);
    assert!(spores > 20 && spores < 250);
    assert!(grows > 9_000);
    assert!(inner);
}

#[test]
fn generate_gene_draws_in_order() {
    for seed in 0..50u64 {
        fastrand::seed(seed);
        let expected: Vec<isize> = (0..40).map(|_| draw_gene()).collect();
        fastrand::seed(seed);
        let got: Vec<isize> = (0..40).map(|_| generate_gene()).collect();
        assert_eq!(got, expected);
    }
}

#[test]
fn drawn_colors_have_channels_in_range() {
    fastrand::seed(5);
    let mut inner = false;
    for _ in 0..2_000 {
        let color = random_color();
        assert!(check_color(color));
        let (r, g, b) = channels(color);
        for c in [r, g, b] {
            assert!((10..=245).contains(&c));
            if c != 10 && c != 245 {
                inner = true;
            }
        }
        assert_eq!(color >> 24, 0);
    }
    assert!(inner);
}

#[test]
fn random_color_draws_red_then_green_then_blue() {
    for seed in 0..50u64 {
        fastrand::seed(seed);
        let expected = draw_color();
        fastrand::seed(seed);
        assert_eq!(random_color(), expected);
    }
}

#[test]
fn a_new_genome_is_valid() {
    fastrand::seed(3);
    for _ in 0..50 {
        let genome = Genome::new();
        let genes = genome.genes();
        assert_eq!(genes.len(), 300);
        assert!(genes.iter().all(|&g| check_gene(g)));
        assert!(check_color(genome.color()));
        assert!(Genome::from_genes(&genes, genome.color()).is_some());
    }
}

#[test]
fn a_new_genome_draws_the_color_first_then_each_gene() {
    for seed in 0..20u64 {
        fastrand::seed(seed);
        let color = draw_color();
        let genes: Vec<isize> = (0..300).map(|_| draw_gene()).collect();
        let after = fastrand::u64(..);
        fastrand::seed(seed);
        let genome = Genome::new();
        assert_eq!(genome.color(), color);
        assert_eq!(genome.genes(), genes);
        assert_eq!(fastrand::u64(..), after);
    }
}

#[test]
fn make_mutation_copies_or_changes_color_and_one_gene() {
    fastrand::seed(17);
    let parent = Genome::new();
    let genes = parent.genes();
    let mut copies = 0;
    let mut mutants = 0;
    let mut inner_location = false;
    for _ in 0..20_000 {
        let child = parent.make_mutation();
        let got = child.genes();
        assert_eq!(got.len(), 300);
        assert!(got.iter().all(|&g| check_gene(g)));
        assert!(check_color(child.color()));
        let changed: Vec<usize> = (0..300).filter(|&i| got[i] != genes[i]).collect();
        assert!(changed.len() <= 1);
        if changed.is_empty() && child.color() == parent.color() {
            copies += 1;
        } else {
            mutants += 1;
        }
        if let Some(&location) = changed.first() {
            if location != 0 && location != 299 {
                inner_location = true;
            }
        }
    }
    // one in fifty mutates
    assert!(mutants > 250 && mutants < 600);
    assert!(copies > 19_000);
    assert!(inner_location);
}

#[test]
fn make_mutation_draws_in_order() {
    let parent = Genome::from_genes(&vec![-2isize; 300], GREY).unwrap();
    let mut mutated = 0;
    for seed in 0..500u64 {
        fastrand::seed(seed);
        let mut genes = parent.genes();
        let mut color = parent.color();
        if (fastrand::u32(..) as u64) * 50 < (1u64 << 32) {
            color = draw_color();
            let location = fastrand::usize(0..=299);
            genes[location] = draw_gene();
            mutated += 1;
        }
        let after = fastrand::u64(..);
        fastrand::seed(seed);
        let child = parent.make_mutation();
        assert_eq!(child.color(), color);
        assert_eq!(child.genes(), genes);
        assert_eq!(fastrand::u64(..), after);
    }
    assert!(mutated > 0);
}

#[test]
fn a_draw_is_the_fraction_of_two_to_the_thirty_second() {
    fastrand::seed(29);
    let scale = 4_294_967_296.0f64;
    for _ in 0..10_000 {
        let draw = fastrand::u32(..);
        let fraction = draw as f64 / scale;
        assert!((0.0..1.0).contains(&fraction));
        assert_eq!(falls_below_one_in(draw, 2), fraction < 0.5);
        assert_eq!(falls_below_one_in(draw, 100), fraction < 0.01);
        assert_eq!(falls_below_one_in(draw, 50), fraction < 1.0 / 50.0);
    }
    for draw in [0u32, 42_949_672, 42_949_673, 85_899_345, 85_899_346, 0x7FFF_FFFF, 0x8000_0000] {
        let fraction = draw as f64 / scale;
        assert_eq!(falls_below_one_in(draw, 2), fraction < 0.5);
        assert_eq!(falls_below_one_in(draw, 100), fraction < 0.01);
        assert_eq!(falls_below_one_in(draw, 50), fraction < 1.0 / 50.0);
    }
}
