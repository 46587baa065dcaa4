//! Genomes: three growth instructions per gene, one for each direction
//! relative to the growing cell, and a display color.

use crate::chance::{falls_below_one_in, random_isize, random_u32, random_usize};
use vstd::prelude::*;

verus! {

/// Number of genes in a genome.
pub const GENOME_SIZE: usize = 100;

/// Number of growth instructions in a genome: three for each gene.
pub const GENE_COUNT: usize = 300;

/// Instruction: no growth in this direction.
pub const NO_GROWTH: isize = -2;

/// Instruction: leave a spore in this direction.
pub const SPORE_GENE: isize = -1;

/// A drawn instruction stops growth once in this many draws.
pub const STOP_ONE_IN: u32 = 2;

/// A growing instruction leaves a spore once in this many draws.
pub const SPORE_ONE_IN: u32 = 100;

/// A germinating spore mutates once in this many draws.
pub const MUTATION_ONE_IN: u32 = 50;

/// Lowest value of a color channel.
pub const CHANNEL_MIN: u32 = 10;

/// Highest value of a color channel.
pub const CHANNEL_MAX: u32 = 245;

/// A growth instruction: stop, spore, or the gene that the new tissue activates.
pub open spec fn is_gene(g: isize) -> bool {
    g == NO_GROWTH || g == SPORE_GENE || 0 <= g < GENOME_SIZE
}

/// Red channel of a packed color.
pub open spec fn red(color: u32) -> u32 {
    (color >> 16) & 0xff
}

/// Green channel of a packed color.
pub open spec fn green(color: u32) -> u32 {
    (color >> 8) & 0xff
}

/// Blue channel of a packed color.
pub open spec fn blue(color: u32) -> u32 {
    color & 0xff
}

/// A channel value that a genome may show.
pub open spec fn is_channel(c: u32) -> bool {
    CHANNEL_MIN <= c <= CHANNEL_MAX
}

/// A packed color `0RGB` whose three channels are all in range.
pub open spec fn is_color(color: u32) -> bool {
    &&& color >> 24 == 0
    &&& is_channel(red(color))
    &&& is_channel(green(color))
    &&& is_channel(blue(color))
}

/// The color `0RGB` of three channels.
pub open spec fn packed(r: u32, g: u32, b: u32) -> u32 {
    (r << 16) | (g << 8) | b
}

/// Packing keeps each channel apart: the packed color gives all three back.
pub proof fn lemma_packed_channels(r: u32, g: u32, b: u32)
    requires
        r <= 0xff,
        g <= 0xff,
        b <= 0xff,
    ensures
        packed(r, g, b) >> 24 == 0,
        red(packed(r, g, b)) == r,
        green(packed(r, g, b)) == g,
        blue(packed(r, g, b)) == b,
{
    assert(((r << 16) | (g << 8) | b) >> 24 == 0 && ((((r << 16) | (g << 8) | b) >> 16) & 0xff)
        == r && ((((r << 16) | (g << 8) | b) >> 8) & 0xff) == g && (((r << 16) | (g << 8) | b)
        & 0xff) == b) by (bit_vector)
        requires
            r <= 0xff,
            g <= 0xff,
            b <= 0xff,
    ;
}

/// What a genome is: its instructions in order, and its color.
pub struct GenomeView {
    pub genes: Seq<isize>,
    pub color: u32,
}

impl GenomeView {
    /// All instructions and the color are in range.
    pub open spec fn valid(self) -> bool {
        &&& self.genes.len() == GENE_COUNT
        &&& forall|i: int| 0 <= i < self.genes.len() ==> is_gene(#[trigger] self.genes[i])
        &&& is_color(self.color)
    }

    /// The instruction of gene `active` for the relative direction `rel`.
    pub open spec fn instruction(self, active: int, rel: int) -> isize {
        self.genes[active * 3 + rel]
    }

    /// This genome with a new color and one instruction overwritten.
    pub open spec fn mutated(self, color: u32, location: int, gene: isize) -> GenomeView {
        GenomeView { genes: self.genes.update(location, gene), color }
    }

    /// `child` may come out of a germination of this genome: it is an
    /// unmodified copy, or a copy with a fresh color and exactly one
    /// instruction drawn anew.
    pub open spec fn begets(self, child: GenomeView) -> bool {
        child == self || exists|color: u32, location: int, gene: isize|
            is_color(color) && 0 <= location < GENE_COUNT && is_gene(gene) && child
                == #[trigger] self.mutated(color, location, gene)
    }
}

/// The genome of one organism.
#[derive(Clone, Copy, Debug)]
pub struct Genome {
    genes: [isize; GENE_COUNT],
    color: u32,
}

impl View for Genome {
    type V = GenomeView;

    closed spec fn view(&self) -> GenomeView {
        GenomeView { genes: self.genes@, color: self.color }
    }
}

/// Packs three channels into the color `0RGB`.
pub fn pack_color(r: u32, g: u32, b: u32) -> (color: u32)
    requires
        r <= 0xff,
        g <= 0xff,
        b <= 0xff,
    ensures
        color == packed(r, g, b),
{
    (r << 16) | (g << 8) | b
}

/// Whether `color` is a packed color with all three channels in range.
pub fn check_color(color: u32) -> (ok: bool)
    ensures
        ok == is_color(color),
{
    let r: u32 = (color >> 16) & 0xff;
    let g: u32 = (color >> 8) & 0xff;
    let b: u32 = color & 0xff;
    color >> 24 == 0 && CHANNEL_MIN <= r && r <= CHANNEL_MAX && CHANNEL_MIN <= g && g
        <= CHANNEL_MAX && CHANNEL_MIN <= b && b <= CHANNEL_MAX
}

/// Whether `g` is a growth instruction.
pub fn check_gene(g: isize) -> (ok: bool)
    ensures
        ok == is_gene(g),
{
    g == NO_GROWTH || g == SPORE_GENE || (0 <= g && g < GENOME_SIZE as isize)
}

/// Draws a color: red, green and blue in this order, each uniform over the
/// channel range.
pub fn random_color() -> (color: u32)
    ensures
        is_color(color),
{
    let r: u32 = CHANNEL_MIN + random_u32(0, CHANNEL_MAX - CHANNEL_MIN);
    let g: u32 = CHANNEL_MIN + random_u32(0, CHANNEL_MAX - CHANNEL_MIN);
    let b: u32 = CHANNEL_MIN + random_u32(0, CHANNEL_MAX - CHANNEL_MIN);
    proof {
        lemma_packed_channels(r, g, b);
    }
    pack_color(r, g, b)
}

/// Draws one growth instruction. A first fraction decides whether growth
/// stops; only if it does not, a second one decides whether a spore is left;
/// only if neither, the gene to activate is drawn uniformly.
pub fn generate_gene() -> (g: isize)
    ensures
        is_gene(g),
{
    if falls_below_one_in(random_u32(0, u32::MAX), STOP_ONE_IN) {
        NO_GROWTH
    } else if falls_below_one_in(random_u32(0, u32::MAX), SPORE_ONE_IN) {
        SPORE_GENE
    } else {
        random_isize(0, GENOME_SIZE as isize - 1)
    }
}

impl Genome {
    /// Every genome is valid.
    #[verifier::type_invariant]
    pub open spec fn inv(&self) -> bool {
        self@.valid()
    }

    /// Draws a genome: the color first, then every instruction in index order.
    pub fn new() -> (genome: Genome)
        ensures
            genome@.valid(),
    {
        let color = random_color();
        let mut genes = [0isize; GENE_COUNT];
        for i in 0..GENE_COUNT
            invariant
                forall|j: int| 0 <= j < GENE_COUNT ==> is_gene(#[trigger] genes@[j]),
        {
            genes[i] = generate_gene();
        }
        Genome { genes, color }
    }

    /// The genome that holds exactly `genes` and `color`, if they are in range.
    pub fn from_genes(genes: &Vec<isize>, color: u32) -> (made: Option<Genome>)
        ensures
            made is Some <==> (GenomeView { genes: genes@, color }).valid(),
            made matches Some(genome) ==> genome@ == (GenomeView { genes: genes@, color }),
    {
        if genes.len() != GENE_COUNT || !check_color(color) {
            return None;
        }
        let mut held = [0isize; GENE_COUNT];
        for i in 0..GENE_COUNT
            invariant
                genes@.len() == GENE_COUNT,
                forall|j: int| 0 <= j < i ==> is_gene(#[trigger] genes@[j]),
                forall|j: int| 0 <= j < i ==> held@[j] == genes@[j],
        {
            if !check_gene(genes[i]) {
                return None;
            }
            held[i] = genes[i];
        }
        assert(held@ =~= genes@);
        Some(Genome { genes: held, color })
    }

    /// A copy with the given color and the instruction at `location` replaced.
    pub fn mutated(&self, color: u32, location: usize, gene: isize) -> (child: Genome)
        requires
            is_color(color),
            location < GENE_COUNT,
            is_gene(gene),
        ensures
            child@ == self@.mutated(color, location as int, gene),
            child@.valid(),
    {
        proof {
            use_type_invariant(self);
        }
        let mut genes = self.genes;
        genes[location] = gene;
        Genome { genes, color }
    }

    /// The genome of an organism that germinates from a spore of this one.
    /// One fraction decides whether it mutates. If it does, a color, a
    /// location and an instruction are drawn in this order.
    pub fn make_mutation(&self) -> (child: Genome)
        ensures
            self@.begets(child@),
            child@.valid(),
    {
        proof {
            use_type_invariant(self);
        }
        if falls_below_one_in(random_u32(0, u32::MAX), MUTATION_ONE_IN) {
            let color = random_color();
            let location = random_usize(0, GENE_COUNT - 1);
            let gene = generate_gene();
            self.mutated(color, location, gene)
        } else {
            *self
        }
    }

    /// The instruction of gene `active` for the relative direction `rel`.
    pub fn instruction(&self, active: usize, rel: usize) -> (gene: isize)
        requires
            active < GENOME_SIZE,
            rel < 3,
        ensures
            gene == self@.instruction(active as int, rel as int),
            is_gene(gene),
    {
        proof {
            use_type_invariant(self);
        }
        self.genes[active * 3 + rel]
    }

    /// The display color.
    pub fn color(&self) -> (color: u32)
        ensures
            color == self@.color,
            is_color(color),
    {
        proof {
            use_type_invariant(self);
        }
        self.color
    }

    /// All instructions in order.
    pub fn genes(&self) -> (genes: Vec<isize>)
        ensures
            genes@ == self@.genes,
    {
        let mut genes: Vec<isize> = Vec::new();
        for i in 0..GENE_COUNT
            invariant
                genes@.len() == i,
                forall|j: int| 0 <= j < i ==> genes@[j] == self.genes@[j],
        {
            genes.push(self.genes[i]);
        }
        assert(genes@ =~= self.genes@);
        genes
    }
}

} // verus!
