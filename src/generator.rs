use vstd::prelude::*;

use crate::catalog::catalog_wf;
use crate::chooser::{TetriminoChooser, MAX_TYPES};
use crate::tetrimino::{CellValue, Tetrimino, TetriminoType};

verus! {

/// A source of new pieces.
pub trait TetriminoGenerator {
    spec fn wf(&self) -> bool;

    /// The piece types pieces are drawn from.
    spec fn catalog(&self) -> Seq<TetriminoType>;

    /// The pieces handed out so far, in order.
    spec fn history(&self) -> Seq<Tetrimino>;

    fn next(&mut self) -> (r: Tetrimino)
        requires
            old(self).wf(),
        ensures
            final(self).wf(),
            final(self).catalog() == old(self).catalog(),
            final(self).history() == old(self).history().push(r),
            r.wf(),
    ;

    fn get_tetrimino_types(&self) -> (r: &Vec<TetriminoType>)
        requires
            self.wf(),
        ensures
            r@ == self.catalog(),
    ;

    /// Restarts the generator's random choices from `seed`.
    fn set_seed(&mut self, seed: Vec<u8>)
        requires
            old(self).wf(),
        ensures
            final(self).wf(),
            final(self).catalog() == old(self).catalog(),
            final(self).history() == old(self).history(),
    ;
}

/// `n` copies of `value`.
pub fn uniform_values(value: CellValue, n: usize) -> (r: Vec<CellValue>)
    ensures
        r@ == Seq::new(n as nat, |i: int| value),
{
    let mut r: Vec<CellValue> = Vec::new();
    let mut i: usize = 0;
    while i < n
        invariant
            i <= n,
            r@ == Seq::new(i as nat, |k: int| value),
        decreases n - i,
    {
        r.push(value);
        i += 1;
        assert(r@ =~= Seq::new(i as nat, |k: int| value));
    }
    r
}

/// Pieces of a randomly chosen type whose cells all carry the type's index.
pub struct BasicGenerator {
    pub tetrimino_chooser: TetriminoChooser,
    /// the pieces handed out so far
    pub produced: Ghost<Seq<Tetrimino>>,
}

impl BasicGenerator {
    pub fn new(tetrimino_types: Vec<TetriminoType>) -> (r: BasicGenerator)
        requires
            1 <= tetrimino_types.len() <= MAX_TYPES,
            catalog_wf(tetrimino_types@),
        ensures
            r.wf(),
            r.catalog() == tetrimino_types@,
    {
        BasicGenerator { tetrimino_chooser: TetriminoChooser::new(tetrimino_types), produced: Ghost(Seq::empty()) }
    }

    /// The next piece: a type from the bag, its cells valued with the type's index.
    pub fn next_piece(&mut self) -> (r: Tetrimino)
        requires
            old(self).wf(),
        ensures
            final(self).wf(),
            final(self).catalog() == old(self).catalog(),
            final(self).produced@ == old(self).produced@.push(r),
            r.wf(),
            exists|i: int|
                0 <= i < old(self).catalog().len() && r.tetrimino_type@ == (#[trigger] old(self).catalog()[i])@
                    && r.values@ == Seq::new(r.values@.len(), |k: int| i as CellValue),
    {
        let (index, tetrimino_type) = self.tetrimino_chooser.choose_tetrimino_type();
        let n = tetrimino_type.shapes[0].len();
        assert(n == tetrimino_type@.cell_count());
        let values = uniform_values(index as CellValue, n);
        assert(values@ =~= Seq::new(values@.len(), |k: int| (index as int) as CellValue));
        let r = tetrimino_type.instance(values);
        assert(r.tetrimino_type@ == old(self).catalog()[index as int]@);
        assert(r.values@ == Seq::new(r.values@.len(), |k: int| (index as int) as CellValue));
        self.produced = Ghost(self.produced@.push(r));
        r
    }
}

impl TetriminoGenerator for BasicGenerator {
    open spec fn wf(&self) -> bool {
        self.tetrimino_chooser.wf()
    }

    open spec fn catalog(&self) -> Seq<TetriminoType> {
        self.tetrimino_chooser.types()
    }

    open spec fn history(&self) -> Seq<Tetrimino> {
        self.produced@
    }

    fn next(&mut self) -> (r: Tetrimino) {
        self.next_piece()
    }

    fn get_tetrimino_types(&self) -> (r: &Vec<TetriminoType>) {
        self.tetrimino_chooser.get_tetrimino_types()
    }

    fn set_seed(&mut self, seed: Vec<u8>) {
        self.tetrimino_chooser.set_seed(seed)
    }
}

/// The generator of replays: basic pieces from the all-zero seed.
pub struct RecordingGenerator {
    pub tetrimino_type_chooser: TetriminoChooser,
    /// the pieces handed out so far
    pub produced: Ghost<Seq<Tetrimino>>,
}

impl RecordingGenerator {
    pub fn new(tetrimino_types: Vec<TetriminoType>) -> (r: RecordingGenerator)
        requires
            1 <= tetrimino_types.len() <= MAX_TYPES,
            catalog_wf(tetrimino_types@),
        ensures
            r.tetrimino_type_chooser.wf(),
            r.tetrimino_type_chooser.types() == tetrimino_types@,
    {
        let mut chooser = TetriminoChooser::new(tetrimino_types);
        chooser.set_seed(Vec::new());
        RecordingGenerator { tetrimino_type_chooser: chooser, produced: Ghost(Seq::empty()) }
    }
}

/// Pieces whose cells carry a value unique to the piece: the type's index plus the number
/// of pieces made before it times the number of types (wrapping at 2^32), so no two placed
/// pieces share a color group.
pub struct CascadeGenerator {
    pub tetrimino_chooser: TetriminoChooser,
    pub current_index: usize,
    /// the pieces handed out so far
    pub produced: Ghost<Seq<Tetrimino>>,
}

/// The value of the cells of the `serial`-th cascade piece of type `index` among `count` types.
pub open spec fn cascade_value(index: int, serial: int, count: int) -> CellValue {
    ((index + (serial % 4294967296) * count) % 4294967296) as CellValue
}

impl CascadeGenerator {
    pub fn new(tetrimino_types: Vec<TetriminoType>) -> (r: CascadeGenerator)
        requires
            1 <= tetrimino_types.len() <= MAX_TYPES,
            catalog_wf(tetrimino_types@),
        ensures
            r.tetrimino_chooser.wf(),
            r.tetrimino_chooser.types() == tetrimino_types@,
            r.current_index == 0,
    {
        CascadeGenerator { tetrimino_chooser: TetriminoChooser::new(tetrimino_types), current_index: 0, produced: Ghost(Seq::empty()) }
    }

    pub fn next_piece(&mut self) -> (r: Tetrimino)
        requires
            old(self).tetrimino_chooser.wf(),
        ensures
            final(self).tetrimino_chooser.wf(),
            final(self).tetrimino_chooser.types() == old(self).tetrimino_chooser.types(),
            final(self).produced@ == old(self).produced@.push(r),
            r.wf(),
            final(self).current_index == if old(self).current_index < usize::MAX { old(self).current_index + 1 } else { 0 },
            exists|i: int|
                0 <= i < old(self).tetrimino_chooser.types().len() && r.tetrimino_type@ == (#[trigger] old(self).tetrimino_chooser.types()[i])@
                    && r.values@ == Seq::new(r.values@.len(), |k: int| cascade_value(i, old(self).current_index as int, old(self).tetrimino_chooser.types().len() as int)),
    {
        let count = self.tetrimino_chooser.get_tetrimino_types().len();
        let (index, tetrimino_type) = self.tetrimino_chooser.choose_tetrimino_type();
        let serial = self.current_index;
        let low = (serial as u64) % 4294967296;
        proof {
            assert(low * (count as u64) <= 4294967295 * 1024) by (nonlinear_arith)
                requires low < 4294967296, count <= 1024;
        }
        let value = ((index as u64 + low * count as u64) % 4294967296) as CellValue;
        assert(value == cascade_value(index as int, serial as int, count as int));
        let n = tetrimino_type.shapes[0].len();
        let values = uniform_values(value, n);
        assert(values@ =~= Seq::new(values@.len(), |k: int| cascade_value(index as int, serial as int, count as int)));
        self.current_index = if serial < usize::MAX { serial + 1 } else { 0 };
        let r = tetrimino_type.instance(values);
        self.produced = Ghost(self.produced@.push(r));
        r
    }
}

/// The cell values of a sticky piece of type `index` with `n` cells: all `index`, except
/// that on an even `coin` the cells `d1 % n` and `d2 % n` (possibly the same) hold
/// `(index + 1) % n`.
pub open spec fn sticky_values_spec(index: int, n: int, coin: int, d1: int, d2: int) -> Seq<CellValue> {
    let base = Seq::new(n as nat, |k: int| index as CellValue);
    if coin % 2 == 0 {
        let v = ((index + 1) % n) as CellValue;
        base.update(d1 % n, v).update(d2 % n, v)
    } else {
        base
    }
}

/// The cell values of a sticky piece from the drawn numbers; see `sticky_values_spec`.
pub fn sticky_values(index: usize, n: usize, coin: usize, d1: usize, d2: usize) -> (r: Vec<CellValue>)
    requires
        1 <= n,
        index < MAX_TYPES,
    ensures
        r@ == sticky_values_spec(index as int, n as int, coin as int, d1 as int, d2 as int),
{
    let mut values = uniform_values(index as CellValue, n);
    if coin % 2 == 0 {
        let new_value = ((index as u64 + 1) % (n as u64)) as CellValue;
        values.set(d1 % n, new_value);
        values.set(d2 % n, new_value);
    }
    values
}

/// Pieces like the basic ones, except that every other piece on average has two of its
/// cells (possibly the same one) recolored with the next type's index modulo the cell count.
pub struct StickyGenerator {
    pub tetrimino_chooser: TetriminoChooser,
    /// the pieces handed out so far
    pub produced: Ghost<Seq<Tetrimino>>,
}

impl StickyGenerator {
    pub fn new(tetrimino_types: Vec<TetriminoType>) -> (r: StickyGenerator)
        requires
            1 <= tetrimino_types.len() <= MAX_TYPES,
            catalog_wf(tetrimino_types@),
        ensures
            r.tetrimino_chooser.wf(),
            r.tetrimino_chooser.types() == tetrimino_types@,
    {
        StickyGenerator { tetrimino_chooser: TetriminoChooser::new(tetrimino_types), produced: Ghost(Seq::empty()) }
    }

    pub fn next_piece(&mut self) -> (r: Tetrimino)
        requires
            old(self).tetrimino_chooser.wf(),
        ensures
            final(self).tetrimino_chooser.wf(),
            final(self).tetrimino_chooser.types() == old(self).tetrimino_chooser.types(),
            final(self).produced@ == old(self).produced@.push(r),
            r.wf(),
            exists|i: int, coin: usize, d1: usize, d2: usize|
                0 <= i < old(self).tetrimino_chooser.types().len() && r.tetrimino_type@ == (#[trigger] old(self).tetrimino_chooser.types()[i])@
                    && r.values@ == #[trigger] sticky_values_spec(i, r.values@.len() as int, coin as int, d1 as int, d2 as int),
    {
        let (index, tetrimino_type) = self.tetrimino_chooser.choose_tetrimino_type();
        let n = tetrimino_type.shapes[0].len();
        let coin = self.tetrimino_chooser.random_usize();
        let (d1, d2) = if coin % 2 == 0 {
            let a = self.tetrimino_chooser.random_usize();
            let b = self.tetrimino_chooser.random_usize();
            (a, b)
        } else {
            (0, 0)
        };
        let values = sticky_values(index, n, coin, d1, d2);
        assert(values@.len() == n);
        let r = tetrimino_type.instance(values);
        assert(r.tetrimino_type@ == old(self).tetrimino_chooser.types()[index as int]@);
        assert(r.values@ == sticky_values_spec(index as int, r.values@.len() as int, coin as int, d1 as int, d2 as int));
        self.produced = Ghost(self.produced@.push(r));
        r
    }
}

/// The generator of each rule variant.
pub enum PieceGenerator {
    Basic(BasicGenerator),
    Cascade(CascadeGenerator),
    Sticky(StickyGenerator),
    Recording(RecordingGenerator),
}

impl PieceGenerator {
    pub open spec fn chooser(&self) -> TetriminoChooser {
        match self {
            PieceGenerator::Basic(g) => g.tetrimino_chooser,
            PieceGenerator::Cascade(g) => g.tetrimino_chooser,
            PieceGenerator::Sticky(g) => g.tetrimino_chooser,
            PieceGenerator::Recording(g) => g.tetrimino_type_chooser,
        }
    }
}

impl TetriminoGenerator for PieceGenerator {
    open spec fn wf(&self) -> bool {
        self.chooser().wf()
    }

    open spec fn catalog(&self) -> Seq<TetriminoType> {
        self.chooser().types()
    }

    open spec fn history(&self) -> Seq<Tetrimino> {
        match self {
            PieceGenerator::Basic(g) => g.produced@,
            PieceGenerator::Cascade(g) => g.produced@,
            PieceGenerator::Sticky(g) => g.produced@,
            PieceGenerator::Recording(g) => g.produced@,
        }
    }

    fn next(&mut self) -> (r: Tetrimino) {
        match self {
            PieceGenerator::Basic(g) => g.next_piece(),
            PieceGenerator::Cascade(g) => g.next_piece(),
            PieceGenerator::Sticky(g) => g.next_piece(),
            PieceGenerator::Recording(g) => {
                let (index, tetrimino_type) = g.tetrimino_type_chooser.choose_tetrimino_type();
                let n = tetrimino_type.shapes[0].len();
                let r = tetrimino_type.instance(uniform_values(index as CellValue, n));
                g.produced = Ghost(g.produced@.push(r));
                r
            },
        }
    }

    fn get_tetrimino_types(&self) -> (r: &Vec<TetriminoType>) {
        match self {
            PieceGenerator::Basic(g) => g.tetrimino_chooser.get_tetrimino_types(),
            PieceGenerator::Cascade(g) => g.tetrimino_chooser.get_tetrimino_types(),
            PieceGenerator::Sticky(g) => g.tetrimino_chooser.get_tetrimino_types(),
            PieceGenerator::Recording(g) => g.tetrimino_type_chooser.get_tetrimino_types(),
        }
    }

    fn set_seed(&mut self, seed: Vec<u8>) {
        match self {
            PieceGenerator::Basic(g) => g.tetrimino_chooser.set_seed(seed),
            PieceGenerator::Cascade(g) => g.tetrimino_chooser.set_seed(seed),
            PieceGenerator::Sticky(g) => g.tetrimino_chooser.set_seed(seed),
            PieceGenerator::Recording(g) => g.tetrimino_type_chooser.set_seed(seed),
        }
    }
}

} // verus!
