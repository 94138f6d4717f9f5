use vstd::prelude::*;

use crate::constants::version_information;
use crate::qr_code::Version;

verus! {

/// Flag bit of a rendered-dark module.
pub const ON: u8 = 1;

/// Flag bit of a data or error-correction module.
pub const DATA: u8 = 2;

/// Flag bit of a finder pattern module, separator included.
pub const FINDER: u8 = 4;

/// Flag bit of an alignment pattern module.
pub const ALIGNMENT: u8 = 8;

/// Flag bit of a timing pattern module.
pub const TIMING: u8 = 16;

/// Flag bit of a format information module.
pub const FORMAT: u8 = 32;

/// Flag bit of a version information module.
pub const VERSION: u8 = 64;

/// Modifier bit marking copies and pattern centers for renderers.
pub const MODIFIER: u8 = 128;

/// One cell of the symbol: a packed tag of the flag bits above.
#[derive(Clone, Copy, PartialEq, Eq, Structural, Debug)]
pub struct Module(pub u8);

impl Module {
    /// The cell carries every flag of `flags`.
    pub open spec fn has_spec(self, flags: Module) -> bool {
        self.0 & flags.0 == flags.0
    }

    /// The cell carries every flag of `flags`.
    pub fn has(self, flags: Module) -> (r: bool)
        ensures
            r == self.has_spec(flags),
    {
        self.0 & flags.0 == flags.0
    }

    /// The cell carries at least one flag of `flags`.
    pub fn any(self, flags: Module) -> (r: bool)
        ensures
            r == (self.0 & flags.0 != 0),
    {
        self.0 & flags.0 != 0
    }

    /// Adds the flags of `flags` to the cell.
    pub fn set(&mut self, flags: Module)
        ensures
            final(self).0 == old(self).0 | flags.0,
    {
        self.0 = self.0 | flags.0;
    }
}

/// Index of the cell at column `x`, row `y` in the row-major cell sequence.
pub open spec fn grid_index(width: int, x: int, y: int) -> int {
    y * width + x
}

/// A value painted over the cell at (x, y), or None to leave it.
pub open spec fn overlay(
    s: Seq<Module>,
    width: int,
    f: spec_fn(int, int) -> Option<Module>,
) -> Seq<Module> {
    Seq::new(
        s.len(),
        |i: int|
            match f(i % width, i / width) {
                Option::Some(m) => m,
                Option::None => s[i],
            },
    )
}

/// A value OR-ed over the flags of the cell at (x, y), or None to leave it.
pub open spec fn overlay_or(
    s: Seq<Module>,
    width: int,
    f: spec_fn(int, int) -> Option<Module>,
) -> Seq<Module> {
    Seq::new(
        s.len(),
        |i: int|
            match f(i % width, i / width) {
                Option::Some(m) => Module(s[i].0 | m.0),
                Option::None => s[i],
            },
    )
}

/// The square cell matrix of one symbol.
#[derive(Debug)]
pub struct Matrix {
    pub value: Vec<Module>,
    pub width: usize,
}

/// Value of a module of the 7x7 finder square at offsets (dx, dy) from its
/// corner: the dark outer ring, the light ring inside it, and the dark 3x3
/// center carrying the modifier.
pub open spec fn finder_square_spec(dx: int, dy: int) -> Module {
    if dx == 0 || dx == 6 || dy == 0 || dy == 6 {
        Module(FINDER | ON)
    } else if 2 <= dx <= 4 && 2 <= dy <= 4 {
        Module(FINDER | MODIFIER | ON)
    } else {
        Module(FINDER)
    }
}

/// The finder overlay: three 8x8 corner regions, each a 7x7 finder square
/// with a light separator ring on its two inner sides.
pub open spec fn finder_module_spec(w: int, x: int, y: int) -> Option<Module> {
    if x <= 7 && y <= 7 {
        Option::Some(
            if x == 7 || y == 7 {
                Module(FINDER)
            } else {
                finder_square_spec(x, y)
            },
        )
    } else if x >= w - 8 && y <= 7 {
        Option::Some(
            if x == w - 8 || y == 7 {
                Module(FINDER)
            } else {
                finder_square_spec(x - (w - 7), y)
            },
        )
    } else if x <= 7 && y >= w - 8 {
        Option::Some(
            if x == 7 || y == w - 8 {
                Module(FINDER)
            } else {
                finder_square_spec(x, y - (w - 7))
            },
        )
    } else {
        Option::None
    }
}

fn finder_module_at(w: usize, x: usize, y: usize) -> (r: Option<Module>)
    requires
        21 <= w,
        x < w,
        y < w,
    ensures
        r == finder_module_spec(w as int, x as int, y as int),
{
    if x <= 7 && y <= 7 {
        Some(
            if x == 7 || y == 7 {
                Module(FINDER)
            } else {
                finder_square_at(x, y)
            },
        )
    } else if x >= w - 8 && y <= 7 {
        Some(
            if x == w - 8 || y == 7 {
                Module(FINDER)
            } else {
                finder_square_at(x - (w - 7), y)
            },
        )
    } else if x <= 7 && y >= w - 8 {
        Some(
            if x == 7 || y == w - 8 {
                Module(FINDER)
            } else {
                finder_square_at(x, y - (w - 7))
            },
        )
    } else {
        None
    }
}

fn finder_square_at(dx: usize, dy: usize) -> (r: Module)
    requires
        dx <= 6,
        dy <= 6,
    ensures
        r == finder_square_spec(dx as int, dy as int),
{
    if dx == 0 || dx == 6 || dy == 0 || dy == 6 {
        Module(FINDER | ON)
    } else if 2 <= dx && dx <= 4 && 2 <= dy && dy <= 4 {
        Module(FINDER | MODIFIER | ON)
    } else {
        Module(FINDER)
    }
}

impl Matrix {
    /// The cell count matches the square symbol of a standard version.
    pub open spec fn wf(&self) -> bool {
        &&& self.value@.len() == self.width * self.width
        &&& 21 <= self.width <= 177
        &&& self.width % 4 == 1
    }

    /// A square matrix of the version's width with every cell `init`.
    pub fn new(version: Version, init: Module) -> (r: Matrix)
        requires
            1 <= version.0 <= 40,
        ensures
            r.wf(),
            r.width == 4 * version.0 + 17,
            forall|i: int| 0 <= i < r.value@.len() ==> r.value@[i] == init,
    {
        let width = 4 * (version.0 as usize) + 17;
        proof {
            assert(width * width <= 31329) by (nonlinear_arith)
                requires
                    21 <= width <= 177,
            ;
        }
        let mut value: Vec<Module> = Vec::new();
        let total = width * width;
        let mut i: usize = 0;
        while i < total
            invariant
                i <= total,
                value.len() == i,
                forall|k: int| 0 <= k < i ==> value[k] == init,
            decreases total - i,
        {
            value.push(init);
            i += 1;
        }
        Matrix { value, width }
    }

    /// The cell at column `x`, row `y`.
    pub fn get(&self, x: usize, y: usize) -> (r: Module)
        requires
            self.wf(),
            x < self.width,
            y < self.width,
        ensures
            r == self.value@[grid_index(self.width as int, x as int, y as int)],
    {
        proof {
            lemma_grid_index_bounds(self.width as int, x as int, y as int);
        }
        self.value[y * self.width + x]
    }

    /// Overwrites the cell at column `x`, row `y`.
    pub fn set(&mut self, x: usize, y: usize, value: Module)
        requires
            old(self).wf(),
            x < old(self).width,
            y < old(self).width,
        ensures
            final(self).wf(),
            final(self).width == old(self).width,
            final(self).value@ =~= old(self).value@.update(
                grid_index(old(self).width as int, x as int, y as int),
                value,
            ),
    {
        proof {
            lemma_grid_index_bounds(self.width as int, x as int, y as int);
        }
        let i = y * self.width + x;
        self.value.set(i, value);
    }

    /// Paints the three finder patterns and their separators; see
    /// `finder_module_spec`.
    pub fn set_finder(&mut self)
        requires
            old(self).wf(),
        ensures
            final(self).wf(),
            final(self).width == old(self).width,
            final(self).value@ =~= overlay(
                old(self).value@,
                old(self).width as int,
                (|x: int, y: int| finder_module_spec(old(self).width as int, x, y)),
            ),
    {
        let w = self.width;
        let ghost target = overlay(
            old(self).value@,
            w as int,
            (|x: int, y: int| finder_module_spec(w as int, x, y)),
        );
        let mut y: usize = 0;
        while y < w
            invariant
                self.wf(),
                y <= w,
                w == self.width,
                target.len() == w * w,
                self.value@.len() == w * w,
                target == overlay(
                    old(self).value@,
                    w as int,
                    (|x: int, y: int| finder_module_spec(w as int, x, y)),
                ),
                forall|i: int| 0 <= i < y * w ==> self.value@[i] == target[i],
                forall|i: int| y * w <= i < w * w ==> self.value@[i] == old(self).value@[i],
            decreases w - y,
        {
            let mut x: usize = 0;
            while x < w
                invariant
                    self.wf(),
                    x <= w,
                    y < w,
                    w == self.width,
                    target.len() == w * w,
                    self.value@.len() == w * w,
                    target == overlay(
                        old(self).value@,
                        w as int,
                        (|x: int, y: int| finder_module_spec(w as int, x, y)),
                    ),
                    forall|i: int| 0 <= i < y * w + x ==> self.value@[i] == target[i],
                    forall|i: int|
                        y * w + x <= i < w * w ==> self.value@[i] == old(self).value@[i],
                decreases w - x,
            {
                proof {
                    lemma_grid_index_bounds(w as int, x as int, y as int);
                    lemma_grid_decompose(w as int, x as int, y as int);
                }
                match finder_module_at(w, x, y) {
                    Some(m) => {
                        self.set(x, y, m);
                    },
                    None => {},
                }
                proof {
                    assert(target[y * w + x] == self.value@[y * w + x]);
                }
                x += 1;
            }
            proof {
                vstd::arithmetic::mul::lemma_mul_is_distributive_add_other_way(
                    w as int,
                    y as int,
                    1,
                );
            }
            y += 1;
        }
        proof {
            assert(self.value@ =~= target);
        }
    }
}

/// The row-major index of an in-range cell is in range.
pub proof fn lemma_grid_index_bounds(w: int, x: int, y: int)
    requires
        0 <= x < w,
        0 <= y < w,
        w <= 177,
    ensures
        0 <= grid_index(w, x, y) < w * w,
        y * w + x == grid_index(w, x, y),
        w * w <= 31329,
{
    vstd::arithmetic::mul::lemma_mul_inequality(y + 1, w, w);
    vstd::arithmetic::mul::lemma_mul_is_distributive_add_other_way(w, y, 1);
    vstd::arithmetic::mul::lemma_mul_is_commutative(y, w);
    vstd::arithmetic::mul::lemma_mul_nonnegative(y, w);
    vstd::arithmetic::mul::lemma_mul_inequality(w, 177, w);
    vstd::arithmetic::mul::lemma_mul_inequality(w, 177, 177);
    vstd::arithmetic::mul::lemma_mul_is_commutative(w, 177);
}

/// The cell index splits back into its column and row.
pub proof fn lemma_grid_decompose(w: int, x: int, y: int)
    requires
        0 <= x < w,
        0 <= y < w,
    ensures
        (y * w + x) % w == x,
        (y * w + x) / w == y,
{
    vstd::arithmetic::mul::lemma_mul_is_commutative(y, w);
    vstd::arithmetic::div_mod::lemma_fundamental_div_mod_converse(y * w + x, w, y, x);
}


/// Number of alignment center coordinates along one axis.
pub open spec fn align_len_spec(version: int) -> int {
    version / 7 + 2
}

/// The `j`-th alignment center coordinate: 6, then evenly stepped positions
/// ending at width - 7.
pub open spec fn align_coord_spec(version: int, j: int) -> int {
    let w = 4 * version + 17;
    if j == 0 {
        6
    } else if j == align_len_spec(version) - 1 {
        w - 7
    } else {
        w - 7 - (align_len_spec(version) - 1 - j) * align_step_spec(version)
    }
}

/// Stride between alignment pattern centers, by version.
pub open spec fn align_step_spec(version: int) -> int {
    if version == 7 {
        16
    } else if version == 8 {
        18
    } else if version == 9 {
        20
    } else if version == 10 {
        22
    } else if version == 11 {
        24
    } else if version == 12 {
        26
    } else if version == 13 {
        28
    } else if version == 14 {
        20
    } else if version == 15 {
        22
    } else if version == 16 {
        24
    } else if version == 17 {
        24
    } else if version == 18 {
        26
    } else if version == 19 {
        28
    } else if version == 20 {
        28
    } else if version == 21 {
        22
    } else if version == 22 {
        24
    } else if version == 23 {
        24
    } else if version == 24 {
        26
    } else if version == 25 {
        26
    } else if version == 26 {
        28
    } else if version == 27 {
        28
    } else if version == 28 {
        24
    } else if version == 29 {
        24
    } else if version == 30 {
        26
    } else if version == 31 {
        26
    } else if version == 32 {
        26
    } else if version == 33 {
        28
    } else if version == 34 {
        28
    } else if version == 35 {
        24
    } else if version == 36 {
        26
    } else if version == 37 {
        26
    } else if version == 38 {
        26
    } else if version == 39 {
        28
    } else {
        28
    }
}

fn align_step_at(version: usize) -> (r: usize)
    requires
        7 <= version <= 40,
    ensures
        r as int == align_step_spec(version as int),
{
    match version {
        7 => 16,
        8 => 18,
        9 => 20,
        10 => 22,
        11 => 24,
        12 => 26,
        13 => 28,
        14 => 20,
        15 => 22,
        16 => 24,
        17 => 24,
        18 => 26,
        19 => 28,
        20 => 28,
        21 => 22,
        22 => 24,
        23 => 24,
        24 => 26,
        25 => 26,
        26 => 28,
        27 => 28,
        28 => 24,
        29 => 24,
        30 => 26,
        31 => 26,
        32 => 26,
        33 => 28,
        34 => 28,
        35 => 24,
        36 => 26,
        37 => 26,
        38 => 26,
        39 => 28,
        _ => 28,
    }
}

/// Every alignment center coordinate lies between the timing edge and the
/// far finder: at least 6 and at most width - 7.
#[verifier::rlimit(100)]
pub proof fn lemma_align_coords_ok(version: int)
    requires
        2 <= version <= 40,
    ensures
        forall|j: int|
            0 <= j < align_len_spec(version) ==> 6 <= #[trigger] align_coord_spec(version, j)
                <= 4 * version + 17 - 7,
{
    if version == 2 {
        assert(align_coord_spec(2, 0) == 6);
        assert(align_coord_spec(2, 1) == 18);
    }
    if version == 3 {
        assert(align_coord_spec(3, 0) == 6);
        assert(align_coord_spec(3, 1) == 22);
    }
    if version == 4 {
        assert(align_coord_spec(4, 0) == 6);
        assert(align_coord_spec(4, 1) == 26);
    }
    if version == 5 {
        assert(align_coord_spec(5, 0) == 6);
        assert(align_coord_spec(5, 1) == 30);
    }
    if version == 6 {
        assert(align_coord_spec(6, 0) == 6);
        assert(align_coord_spec(6, 1) == 34);
    }
    if version == 7 {
        assert(align_coord_spec(7, 0) == 6);
        assert(align_coord_spec(7, 2) == 38);
        assert(1int * 16 == 16);
        assert(align_coord_spec(7, 1) == 22);
    }
    if version == 8 {
        assert(align_coord_spec(8, 0) == 6);
        assert(align_coord_spec(8, 2) == 42);
        assert(1int * 18 == 18);
        assert(align_coord_spec(8, 1) == 24);
    }
    if version == 9 {
        assert(align_coord_spec(9, 0) == 6);
        assert(align_coord_spec(9, 2) == 46);
        assert(1int * 20 == 20);
        assert(align_coord_spec(9, 1) == 26);
    }
    if version == 10 {
        assert(align_coord_spec(10, 0) == 6);
        assert(align_coord_spec(10, 2) == 50);
        assert(1int * 22 == 22);
        assert(align_coord_spec(10, 1) == 28);
    }
    if version == 11 {
        assert(align_coord_spec(11, 0) == 6);
        assert(align_coord_spec(11, 2) == 54);
        assert(1int * 24 == 24);
        assert(align_coord_spec(11, 1) == 30);
    }
    if version == 12 {
        assert(align_coord_spec(12, 0) == 6);
        assert(align_coord_spec(12, 2) == 58);
        assert(1int * 26 == 26);
        assert(align_coord_spec(12, 1) == 32);
    }
    if version == 13 {
        assert(align_coord_spec(13, 0) == 6);
        assert(align_coord_spec(13, 2) == 62);
        assert(1int * 28 == 28);
        assert(align_coord_spec(13, 1) == 34);
    }
    if version == 14 {
        assert(align_coord_spec(14, 0) == 6);
        assert(align_coord_spec(14, 3) == 66);
        assert(2int * 20 == 40);
        assert(align_coord_spec(14, 1) == 26);
        assert(1int * 20 == 20);
        assert(align_coord_spec(14, 2) == 46);
    }
    if version == 15 {
        assert(align_coord_spec(15, 0) == 6);
        assert(align_coord_spec(15, 3) == 70);
        assert(2int * 22 == 44);
        assert(align_coord_spec(15, 1) == 26);
        assert(1int * 22 == 22);
        assert(align_coord_spec(15, 2) == 48);
    }
    if version == 16 {
        assert(align_coord_spec(16, 0) == 6);
        assert(align_coord_spec(16, 3) == 74);
        assert(2int * 24 == 48);
        assert(align_coord_spec(16, 1) == 26);
        assert(1int * 24 == 24);
        assert(align_coord_spec(16, 2) == 50);
    }
    if version == 17 {
        assert(align_coord_spec(17, 0) == 6);
        assert(align_coord_spec(17, 3) == 78);
        assert(2int * 24 == 48);
        assert(align_coord_spec(17, 1) == 30);
        assert(1int * 24 == 24);
        assert(align_coord_spec(17, 2) == 54);
    }
    if version == 18 {
        assert(align_coord_spec(18, 0) == 6);
        assert(align_coord_spec(18, 3) == 82);
        assert(2int * 26 == 52);
        assert(align_coord_spec(18, 1) == 30);
        assert(1int * 26 == 26);
        assert(align_coord_spec(18, 2) == 56);
    }
    if version == 19 {
        assert(align_coord_spec(19, 0) == 6);
        assert(align_coord_spec(19, 3) == 86);
        assert(2int * 28 == 56);
        assert(align_coord_spec(19, 1) == 30);
        assert(1int * 28 == 28);
        assert(align_coord_spec(19, 2) == 58);
    }
    if version == 20 {
        assert(align_coord_spec(20, 0) == 6);
        assert(align_coord_spec(20, 3) == 90);
        assert(2int * 28 == 56);
        assert(align_coord_spec(20, 1) == 34);
        assert(1int * 28 == 28);
        assert(align_coord_spec(20, 2) == 62);
    }
    if version == 21 {
        assert(align_coord_spec(21, 0) == 6);
        assert(align_coord_spec(21, 4) == 94);
        assert(3int * 22 == 66);
        assert(align_coord_spec(21, 1) == 28);
        assert(2int * 22 == 44);
        assert(align_coord_spec(21, 2) == 50);
        assert(1int * 22 == 22);
        assert(align_coord_spec(21, 3) == 72);
    }
    if version == 22 {
        assert(align_coord_spec(22, 0) == 6);
        assert(align_coord_spec(22, 4) == 98);
        assert(3int * 24 == 72);
        assert(align_coord_spec(22, 1) == 26);
        assert(2int * 24 == 48);
        assert(align_coord_spec(22, 2) == 50);
        assert(1int * 24 == 24);
        assert(align_coord_spec(22, 3) == 74);
    }
    if version == 23 {
        assert(align_coord_spec(23, 0) == 6);
        assert(align_coord_spec(23, 4) == 102);
        assert(3int * 24 == 72);
        assert(align_coord_spec(23, 1) == 30);
        assert(2int * 24 == 48);
        assert(align_coord_spec(23, 2) == 54);
        assert(1int * 24 == 24);
        assert(align_coord_spec(23, 3) == 78);
    }
    if version == 24 {
        assert(align_coord_spec(24, 0) == 6);
        assert(align_coord_spec(24, 4) == 106);
        assert(3int * 26 == 78);
        assert(align_coord_spec(24, 1) == 28);
        assert(2int * 26 == 52);
        assert(align_coord_spec(24, 2) == 54);
        assert(1int * 26 == 26);
        assert(align_coord_spec(24, 3) == 80);
    }
    if version == 25 {
        assert(align_coord_spec(25, 0) == 6);
        assert(align_coord_spec(25, 4) == 110);
        assert(3int * 26 == 78);
        assert(align_coord_spec(25, 1) == 32);
        assert(2int * 26 == 52);
        assert(align_coord_spec(25, 2) == 58);
        assert(1int * 26 == 26);
        assert(align_coord_spec(25, 3) == 84);
    }
    if version == 26 {
        assert(align_coord_spec(26, 0) == 6);
        assert(align_coord_spec(26, 4) == 114);
        assert(3int * 28 == 84);
        assert(align_coord_spec(26, 1) == 30);
        assert(2int * 28 == 56);
        assert(align_coord_spec(26, 2) == 58);
        assert(1int * 28 == 28);
        assert(align_coord_spec(26, 3) == 86);
    }
    if version == 27 {
        assert(align_coord_spec(27, 0) == 6);
        assert(align_coord_spec(27, 4) == 118);
        assert(3int * 28 == 84);
        assert(align_coord_spec(27, 1) == 34);
        assert(2int * 28 == 56);
        assert(align_coord_spec(27, 2) == 62);
        assert(1int * 28 == 28);
        assert(align_coord_spec(27, 3) == 90);
    }
    if version == 28 {
        assert(align_coord_spec(28, 0) == 6);
        assert(align_coord_spec(28, 5) == 122);
        assert(4int * 24 == 96);
        assert(align_coord_spec(28, 1) == 26);
        assert(3int * 24 == 72);
        assert(align_coord_spec(28, 2) == 50);
        assert(2int * 24 == 48);
        assert(align_coord_spec(28, 3) == 74);
        assert(1int * 24 == 24);
        assert(align_coord_spec(28, 4) == 98);
    }
    if version == 29 {
        assert(align_coord_spec(29, 0) == 6);
        assert(align_coord_spec(29, 5) == 126);
        assert(4int * 24 == 96);
        assert(align_coord_spec(29, 1) == 30);
        assert(3int * 24 == 72);
        assert(align_coord_spec(29, 2) == 54);
        assert(2int * 24 == 48);
        assert(align_coord_spec(29, 3) == 78);
        assert(1int * 24 == 24);
        assert(align_coord_spec(29, 4) == 102);
    }
    if version == 30 {
        assert(align_coord_spec(30, 0) == 6);
        assert(align_coord_spec(30, 5) == 130);
        assert(4int * 26 == 104);
        assert(align_coord_spec(30, 1) == 26);
        assert(3int * 26 == 78);
        assert(align_coord_spec(30, 2) == 52);
        assert(2int * 26 == 52);
        assert(align_coord_spec(30, 3) == 78);
        assert(1int * 26 == 26);
        assert(align_coord_spec(30, 4) == 104);
    }
    if version == 31 {
        assert(align_coord_spec(31, 0) == 6);
        assert(align_coord_spec(31, 5) == 134);
        assert(4int * 26 == 104);
        assert(align_coord_spec(31, 1) == 30);
        assert(3int * 26 == 78);
        assert(align_coord_spec(31, 2) == 56);
        assert(2int * 26 == 52);
        assert(align_coord_spec(31, 3) == 82);
        assert(1int * 26 == 26);
        assert(align_coord_spec(31, 4) == 108);
    }
    if version == 32 {
        assert(align_coord_spec(32, 0) == 6);
        assert(align_coord_spec(32, 5) == 138);
        assert(4int * 26 == 104);
        assert(align_coord_spec(32, 1) == 34);
        assert(3int * 26 == 78);
        assert(align_coord_spec(32, 2) == 60);
        assert(2int * 26 == 52);
        assert(align_coord_spec(32, 3) == 86);
        assert(1int * 26 == 26);
        assert(align_coord_spec(32, 4) == 112);
    }
    if version == 33 {
        assert(align_coord_spec(33, 0) == 6);
        assert(align_coord_spec(33, 5) == 142);
        assert(4int * 28 == 112);
        assert(align_coord_spec(33, 1) == 30);
        assert(3int * 28 == 84);
        assert(align_coord_spec(33, 2) == 58);
        assert(2int * 28 == 56);
        assert(align_coord_spec(33, 3) == 86);
        assert(1int * 28 == 28);
        assert(align_coord_spec(33, 4) == 114);
    }
    if version == 34 {
        assert(align_coord_spec(34, 0) == 6);
        assert(align_coord_spec(34, 5) == 146);
        assert(4int * 28 == 112);
        assert(align_coord_spec(34, 1) == 34);
        assert(3int * 28 == 84);
        assert(align_coord_spec(34, 2) == 62);
        assert(2int * 28 == 56);
        assert(align_coord_spec(34, 3) == 90);
        assert(1int * 28 == 28);
        assert(align_coord_spec(34, 4) == 118);
    }
    if version == 35 {
        assert(align_coord_spec(35, 0) == 6);
        assert(align_coord_spec(35, 6) == 150);
        assert(5int * 24 == 120);
        assert(align_coord_spec(35, 1) == 30);
        assert(4int * 24 == 96);
        assert(align_coord_spec(35, 2) == 54);
        assert(3int * 24 == 72);
        assert(align_coord_spec(35, 3) == 78);
        assert(2int * 24 == 48);
        assert(align_coord_spec(35, 4) == 102);
        assert(1int * 24 == 24);
        assert(align_coord_spec(35, 5) == 126);
    }
    if version == 36 {
        assert(align_coord_spec(36, 0) == 6);
        assert(align_coord_spec(36, 6) == 154);
        assert(5int * 26 == 130);
        assert(align_coord_spec(36, 1) == 24);
        assert(4int * 26 == 104);
        assert(align_coord_spec(36, 2) == 50);
        assert(3int * 26 == 78);
        assert(align_coord_spec(36, 3) == 76);
        assert(2int * 26 == 52);
        assert(align_coord_spec(36, 4) == 102);
        assert(1int * 26 == 26);
        assert(align_coord_spec(36, 5) == 128);
    }
    if version == 37 {
        assert(align_coord_spec(37, 0) == 6);
        assert(align_coord_spec(37, 6) == 158);
        assert(5int * 26 == 130);
        assert(align_coord_spec(37, 1) == 28);
        assert(4int * 26 == 104);
        assert(align_coord_spec(37, 2) == 54);
        assert(3int * 26 == 78);
        assert(align_coord_spec(37, 3) == 80);
        assert(2int * 26 == 52);
        assert(align_coord_spec(37, 4) == 106);
        assert(1int * 26 == 26);
        assert(align_coord_spec(37, 5) == 132);
    }
    if version == 38 {
        assert(align_coord_spec(38, 0) == 6);
        assert(align_coord_spec(38, 6) == 162);
        assert(5int * 26 == 130);
        assert(align_coord_spec(38, 1) == 32);
        assert(4int * 26 == 104);
        assert(align_coord_spec(38, 2) == 58);
        assert(3int * 26 == 78);
        assert(align_coord_spec(38, 3) == 84);
        assert(2int * 26 == 52);
        assert(align_coord_spec(38, 4) == 110);
        assert(1int * 26 == 26);
        assert(align_coord_spec(38, 5) == 136);
    }
    if version == 39 {
        assert(align_coord_spec(39, 0) == 6);
        assert(align_coord_spec(39, 6) == 166);
        assert(5int * 28 == 140);
        assert(align_coord_spec(39, 1) == 26);
        assert(4int * 28 == 112);
        assert(align_coord_spec(39, 2) == 54);
        assert(3int * 28 == 84);
        assert(align_coord_spec(39, 3) == 82);
        assert(2int * 28 == 56);
        assert(align_coord_spec(39, 4) == 110);
        assert(1int * 28 == 28);
        assert(align_coord_spec(39, 5) == 138);
    }
    if version == 40 {
        assert(align_coord_spec(40, 0) == 6);
        assert(align_coord_spec(40, 6) == 170);
        assert(5int * 28 == 140);
        assert(align_coord_spec(40, 1) == 30);
        assert(4int * 28 == 112);
        assert(align_coord_spec(40, 2) == 58);
        assert(3int * 28 == 84);
        assert(align_coord_spec(40, 3) == 86);
        assert(2int * 28 == 56);
        assert(align_coord_spec(40, 4) == 114);
        assert(1int * 28 == 28);
        assert(align_coord_spec(40, 5) == 142);
    }
}


/// The first alignment coordinate index whose center is within two cells of
/// `t`, searching from `j` up; -1 when none is.
pub open spec fn align_near_from(version: int, t: int, j: int) -> int
    decreases align_len_spec(version) - j,
{
    if j < 0 || j >= align_len_spec(version) {
        -1
    } else if align_coord_spec(version, j) - 2 <= t <= align_coord_spec(version, j) + 2 {
        j
    } else {
        align_near_from(version, t, j + 1)
    }
}

proof fn lemma_align_near_found(version: int, t: int, lo: int, j: int)
    requires
        0 <= lo <= j < align_len_spec(version),
        align_coord_spec(version, j) - 2 <= t <= align_coord_spec(version, j) + 2,
        forall|k: int|
            lo <= k < j ==> !(#[trigger] align_coord_spec(version, k) - 2 <= t
                <= align_coord_spec(version, k) + 2),
    ensures
        align_near_from(version, t, lo) == j,
    decreases j - lo,
{
    if lo < j {
        lemma_align_near_found(version, t, lo + 1, j);
    }
}

proof fn lemma_align_near_missing(version: int, t: int, lo: int)
    requires
        0 <= lo,
        forall|k: int|
            lo <= k < align_len_spec(version) ==> !(#[trigger] align_coord_spec(version, k) - 2
                <= t <= align_coord_spec(version, k) + 2),
    ensures
        align_near_from(version, t, lo) == -1,
    decreases align_len_spec(version) - lo,
{
    if lo < align_len_spec(version) {
        lemma_align_near_missing(version, t, lo + 1);
    }
}

/// Value of a module of the 5x5 alignment square at offsets (dx, dy) from
/// its corner: dark ring, light inner ring, dark center with the modifier.
pub open spec fn align_square_spec(dx: int, dy: int) -> Module {
    if dx == 0 || dx == 4 || dy == 0 || dy == 4 {
        Module(ALIGNMENT | ON)
    } else if dx == 2 && dy == 2 {
        Module(ALIGNMENT | MODIFIER | ON)
    } else {
        Module(ALIGNMENT)
    }
}

/// The alignment overlay: a 5x5 square at every pair of center coordinates
/// except the three that would sit on the finder corners; none at version 1.
pub open spec fn alignment_module_spec(version: int, x: int, y: int) -> Option<Module> {
    if version == 1 {
        Option::None
    } else {
        let ci = align_near_from(version, x, 0);
        let cj = align_near_from(version, y, 0);
        let last = align_len_spec(version) - 1;
        if ci >= 0 && cj >= 0 && !((ci == 0 && cj == 0) || (ci == 0 && cj == last) || (ci == last
            && cj == 0)) {
            Option::Some(
                align_square_spec(
                    x - (align_coord_spec(version, ci) - 2),
                    y - (align_coord_spec(version, cj) - 2),
                ),
            )
        } else {
            Option::None
        }
    }
}

fn align_square_at(dx: usize, dy: usize) -> (r: Module)
    requires
        dx <= 4,
        dy <= 4,
    ensures
        r == align_square_spec(dx as int, dy as int),
{
    if dx == 0 || dx == 4 || dy == 0 || dy == 4 {
        Module(ALIGNMENT | ON)
    } else if dx == 2 && dy == 2 {
        Module(ALIGNMENT | MODIFIER | ON)
    } else {
        Module(ALIGNMENT)
    }
}

/// First coordinate index within two cells of `t`, or the list length when
/// none is; mirrors `align_near_from`.
fn align_near_at(coords: &Vec<usize>, t: usize, Ghost(version): Ghost<int>) -> (r: usize)
    requires
        coords@.len() == align_len_spec(version),
        2 <= version <= 40,
        forall|k: int|
            0 <= k < coords@.len() ==> coords@[k] as int == align_coord_spec(version, k)
                && 6 <= #[trigger] coords@[k],
    ensures
        r <= coords@.len(),
        r < coords@.len() ==> r as int == align_near_from(version, t as int, 0),
        r < coords@.len() ==> coords@[r as int] - 2 <= t <= coords@[r as int] + 2,
        r == coords@.len() ==> align_near_from(version, t as int, 0) == -1,
{
    let n = coords.len();
    let mut j: usize = 0;
    while j < n
        invariant
            j <= n,
            n == coords@.len(),
            coords@.len() == align_len_spec(version),
            2 <= version <= 40,
            forall|k: int|
                0 <= k < coords@.len() ==> coords@[k] as int == align_coord_spec(version, k)
                    && 6 <= #[trigger] coords@[k],
            forall|k: int|
                0 <= k < j ==> !(#[trigger] align_coord_spec(version, k) - 2 <= t as int
                    <= align_coord_spec(version, k) + 2),
        decreases n - j,
    {
        let c = coords[j];
        if c - 2 <= t && t <= c + 2 {
            proof {
                lemma_align_near_found(version, t as int, 0, j as int);
            }
            return j;
        }
        j += 1;
    }
    proof {
        lemma_align_near_missing(version, t as int, 0);
    }
    n
}

impl Matrix {
    /// Paints the alignment patterns; see `alignment_module_spec`.
    pub fn set_alignment(&mut self)
        requires
            old(self).wf(),
        ensures
            final(self).wf(),
            final(self).width == old(self).width,
            final(self).value@ =~= overlay(
                old(self).value@,
                old(self).width as int,
                (|x: int, y: int|
                    alignment_module_spec(((old(self).width - 17) / 4) as int, x, y)),
            ),
    {
        let w = self.width;
        let version = (w - 17) / 4;
        let ghost vi = version as int;
        let ghost target = overlay(
            old(self).value@,
            w as int,
            (|x: int, y: int| alignment_module_spec(vi, x, y)),
        );
        if version == 1 {
            proof {
                assert(self.value@ =~= target);
            }
            return;
        }
        proof {
            lemma_align_coords_ok(vi);
        }
        let len = version / 7 + 2;
        let mut coords: Vec<usize> = Vec::new();
        coords.push(6);
        if version >= 7 {
            let step = align_step_at(version);
            let mut j: usize = 1;
            while j < len - 1
                invariant
                    1 <= j <= len - 1,
                    7 <= version <= 40,
                    vi == version,
                    w == 4 * version + 17,
                    len == align_len_spec(vi),
                    step as int == align_step_spec(vi),
                    coords@.len() == j,
                    forall|k: int|
                        0 <= k < j ==> coords@[k] as int == align_coord_spec(vi, k)
                            && 6 <= #[trigger] coords@[k],
                    forall|k: int|
                        0 <= k < align_len_spec(vi) ==> 6 <= #[trigger] align_coord_spec(vi, k)
                            <= w - 7,
                decreases len - 1 - j,
            {
                let back = (len - 1 - j) * step;
                proof {
                    assert(align_coord_spec(vi, j as int) == w - 7 - (len - 1 - j) * step);
                }
                coords.push(w - 7 - back);
                j += 1;
            }
        }
        coords.push(w - 7);
        proof {
            assert(coords@.len() == align_len_spec(vi));
        }
        let mut y: usize = 0;
        while y < w
            invariant
                self.wf(),
                y <= w,
                w == self.width,
                2 <= version <= 40,
                vi == version,
                w == 4 * version + 17,
                coords@.len() == align_len_spec(vi),
                forall|k: int|
                    0 <= k < coords@.len() ==> coords@[k] as int == align_coord_spec(vi, k)
                        && 6 <= #[trigger] coords@[k] && coords@[k] <= w - 7,
                target.len() == w * w,
                self.value@.len() == w * w,
                target == overlay(
                    old(self).value@,
                    w as int,
                    (|x: int, y: int| alignment_module_spec(vi, x, y)),
                ),
                forall|i: int| 0 <= i < y * w ==> self.value@[i] == target[i],
                forall|i: int| y * w <= i < w * w ==> self.value@[i] == old(self).value@[i],
            decreases w - y,
        {
            let mut x: usize = 0;
            while x < w
                invariant
                    self.wf(),
                    x <= w,
                    y < w,
                    w == self.width,
                    2 <= version <= 40,
                    vi == version,
                    w == 4 * version + 17,
                    coords@.len() == align_len_spec(vi),
                    forall|k: int|
                        0 <= k < coords@.len() ==> coords@[k] as int == align_coord_spec(vi, k)
                            && 6 <= #[trigger] coords@[k] && coords@[k] <= w - 7,
                    target.len() == w * w,
                    self.value@.len() == w * w,
                    target == overlay(
                        old(self).value@,
                        w as int,
                        (|x: int, y: int| alignment_module_spec(vi, x, y)),
                    ),
                    forall|i: int| 0 <= i < y * w + x ==> self.value@[i] == target[i],
                    forall|i: int|
                        y * w + x <= i < w * w ==> self.value@[i] == old(self).value@[i],
                decreases w - x,
            {
                proof {
                    lemma_grid_index_bounds(w as int, x as int, y as int);
                    lemma_grid_decompose(w as int, x as int, y as int);
                }
                let ci = align_near_at(&coords, x, Ghost(vi));
                let cj = align_near_at(&coords, y, Ghost(vi));
                let n = coords.len();
                if ci < n && cj < n && !((ci == 0 && cj == 0) || (ci == 0 && cj == n - 1) || (ci
                    == n - 1 && cj == 0)) {
                    let dx = x - (coords[ci] - 2);
                    let dy = y - (coords[cj] - 2);
                    self.set(x, y, align_square_at(dx, dy));
                }
                proof {
                    assert(target[y * w + x] == self.value@[y * w + x]);
                }
                x += 1;
            }
            proof {
                vstd::arithmetic::mul::lemma_mul_is_distributive_add_other_way(
                    w as int,
                    y as int,
                    1,
                );
            }
            y += 1;
        }
        proof {
            assert(self.value@ =~= target);
        }
    }
}


/// The timing overlay: alternating modules along row 6 and column 6 between
/// the finder regions, dark at even offsets. These flags are OR-ed into the
/// cells so that overlapping alignment patterns keep their role.
pub open spec fn timing_module_spec(w: int, x: int, y: int) -> Option<Module> {
    if y == 6 && 8 <= x <= w - 9 {
        Option::Some(
            Module(
                TIMING | (if (x - 8) % 2 == 0 {
                    ON
                } else {
                    0
                }),
            ),
        )
    } else if x == 6 && 8 <= y <= w - 9 {
        Option::Some(
            Module(
                TIMING | (if (y - 8) % 2 == 0 {
                    ON
                } else {
                    0
                }),
            ),
        )
    } else {
        Option::None
    }
}

/// Bit `i` of an information word.
pub open spec fn word_bit(word: int, i: int) -> bool {
    ((word as u32) >> (i as u32)) & 1 == 1
}

/// The format overlay for the 15-bit word `word`: the primary copy around
/// the top-left finder, the mirror copy split along the bottom-left and
/// top-right edges, and the fixed dark module above the bottom-left finder.
pub open spec fn format_module_spec(w: int, word: int, x: int, y: int) -> Option<Module> {
    let on_of = |i: int|
        if word_bit(word, i) {
            ON
        } else {
            0
        };
    if x == 8 && y <= 5 {
        Option::Some(Module(FORMAT | on_of(y)))
    } else if x == 8 && y == 7 {
        Option::Some(Module(FORMAT | on_of(6)))
    } else if x == 8 && y == 8 {
        Option::Some(Module(FORMAT | on_of(7)))
    } else if x == 7 && y == 8 {
        Option::Some(Module(FORMAT | on_of(8)))
    } else if y == 8 && x <= 5 {
        Option::Some(Module(FORMAT | on_of(14 - x)))
    } else if y == 8 && x >= w - 8 {
        Option::Some(Module(FORMAT | MODIFIER | on_of(w - 1 - x)))
    } else if x == 8 && y == w - 8 {
        Option::Some(Module(FORMAT | MODIFIER | ON))
    } else if x == 8 && y >= w - 7 {
        Option::Some(Module(FORMAT | MODIFIER | on_of(y - (w - 15))))
    } else {
        Option::None
    }
}

/// The version information overlay for the 18-bit word `word`: two mirrored
/// 3x6 blocks beside the bottom-left and top-right finders; present only
/// from version 7 on.
pub open spec fn version_module_spec(w: int, word: int, x: int, y: int) -> Option<Module> {
    if w < 45 {
        Option::None
    } else if x <= 5 && w - 11 <= y <= w - 9 {
        Option::Some(
            Module(
                VERSION | (if word_bit(word, 3 * x + (y - (w - 11))) {
                    ON
                } else {
                    0
                }),
            ),
        )
    } else if y <= 5 && w - 11 <= x <= w - 9 {
        Option::Some(
            Module(
                VERSION | MODIFIER | (if word_bit(word, 3 * y + (x - (w - 11))) {
                    ON
                } else {
                    0
                }),
            ),
        )
    } else {
        Option::None
    }
}

fn timing_module_at(w: usize, x: usize, y: usize) -> (r: Option<Module>)
    requires
        21 <= w,
        x < w,
        y < w,
    ensures
        r == timing_module_spec(w as int, x as int, y as int),
{
    if y == 6 && 8 <= x && x <= w - 9 {
        Some(
            Module(
                TIMING | (if (x - 8) % 2 == 0 {
                    ON
                } else {
                    0
                }),
            ),
        )
    } else if x == 6 && 8 <= y && y <= w - 9 {
        Some(
            Module(
                TIMING | (if (y - 8) % 2 == 0 {
                    ON
                } else {
                    0
                }),
            ),
        )
    } else {
        None
    }
}

fn word_bit_at(word: u32, i: u32) -> (r: bool)
    requires
        i < 32,
    ensures
        r == word_bit(word as int, i as int),
{
    (word >> i) & 1 == 1
}

fn format_module_at(w: usize, word: u32, x: usize, y: usize) -> (r: Option<Module>)
    requires
        21 <= w,
        x < w,
        y < w,
    ensures
        r == format_module_spec(w as int, word as int, x as int, y as int),
{
    if x == 8 && y <= 5 {
        Some(Module(FORMAT | (if word_bit_at(word, y as u32) { ON } else { 0 })))
    } else if x == 8 && y == 7 {
        Some(Module(FORMAT | (if word_bit_at(word, 6) { ON } else { 0 })))
    } else if x == 8 && y == 8 {
        Some(Module(FORMAT | (if word_bit_at(word, 7) { ON } else { 0 })))
    } else if x == 7 && y == 8 {
        Some(Module(FORMAT | (if word_bit_at(word, 8) { ON } else { 0 })))
    } else if y == 8 && x <= 5 {
        Some(Module(FORMAT | (if word_bit_at(word, (14 - x) as u32) { ON } else { 0 })))
    } else if y == 8 && x >= w - 8 {
        Some(Module(FORMAT | MODIFIER | (if word_bit_at(word, (w - 1 - x) as u32) { ON } else { 0 })))
    } else if x == 8 && y == w - 8 {
        Some(Module(FORMAT | MODIFIER | ON))
    } else if x == 8 && y >= w - 7 {
        Some(Module(FORMAT | MODIFIER | (if word_bit_at(word, (y - (w - 15)) as u32) { ON } else { 0 })))
    } else {
        None
    }
}

fn version_module_at(w: usize, word: u32, x: usize, y: usize) -> (r: Option<Module>)
    requires
        21 <= w,
        x < w,
        y < w,
    ensures
        r == version_module_spec(w as int, word as int, x as int, y as int),
{
    if w < 45 {
        None
    } else if x <= 5 && w - 11 <= y && y <= w - 9 {
        Some(
            Module(
                VERSION | (if word_bit_at(word, (3 * x + (y - (w - 11))) as u32) {
                    ON
                } else {
                    0
                }),
            ),
        )
    } else if y <= 5 && w - 11 <= x && x <= w - 9 {
        Some(
            Module(
                VERSION | MODIFIER | (if word_bit_at(word, (3 * y + (x - (w - 11))) as u32) {
                    ON
                } else {
                    0
                }),
            ),
        )
    } else {
        None
    }
}

impl Matrix {
    /// OR-paints the two timing patterns; see `timing_module_spec`.
    pub fn set_timing(&mut self)
        requires
            old(self).wf(),
        ensures
            final(self).wf(),
            final(self).width == old(self).width,
            final(self).value@ =~= overlay_or(
                old(self).value@,
                old(self).width as int,
                (|x: int, y: int| timing_module_spec(old(self).width as int, x, y)),
            ),
    {
        let w = self.width;
        let ghost target = overlay_or(
            old(self).value@,
            w as int,
            (|x: int, y: int| timing_module_spec(w as int, x, y)),
        );
        let mut y: usize = 0;
        while y < w
            invariant
                self.wf(),
                y <= w,
                w == self.width,
                target.len() == w * w,
                self.value@.len() == w * w,
                target == overlay_or(
                    old(self).value@,
                    w as int,
                    (|x: int, y: int| timing_module_spec(w as int, x, y)),
                ),
                forall|i: int| 0 <= i < y * w ==> self.value@[i] == target[i],
                forall|i: int| y * w <= i < w * w ==> self.value@[i] == old(self).value@[i],
            decreases w - y,
        {
            let mut x: usize = 0;
            while x < w
                invariant
                    self.wf(),
                    x <= w,
                    y < w,
                    w == self.width,
                    target.len() == w * w,
                    self.value@.len() == w * w,
                    target == overlay_or(
                        old(self).value@,
                        w as int,
                        (|x: int, y: int| timing_module_spec(w as int, x, y)),
                    ),
                    forall|i: int| 0 <= i < y * w + x ==> self.value@[i] == target[i],
                    forall|i: int|
                        y * w + x <= i < w * w ==> self.value@[i] == old(self).value@[i],
                decreases w - x,
            {
                proof {
                    lemma_grid_index_bounds(w as int, x as int, y as int);
                    lemma_grid_decompose(w as int, x as int, y as int);
                }
                match timing_module_at(w, x, y) {
                    Some(m) => {
                        let cur = self.get(x, y);
                        self.set(x, y, Module(cur.0 | m.0));
                    },
                    None => {},
                }
                proof {
                    assert(target[y * w + x] == self.value@[y * w + x]);
                }
                x += 1;
            }
            proof {
                vstd::arithmetic::mul::lemma_mul_is_distributive_add_other_way(
                    w as int,
                    y as int,
                    1,
                );
            }
            y += 1;
        }
        proof {
            assert(self.value@ =~= target);
        }
    }

    /// Paints both copies of the format information for (ecl, mask) and the
    /// fixed dark module; see `format_module_spec`.
    pub fn set_format(&mut self, ecl: crate::qr_code::ECL, mask: crate::qr_code::Mask)
        requires
            old(self).wf(),
        ensures
            final(self).wf(),
            final(self).width == old(self).width,
            final(self).value@ =~= overlay(
                old(self).value@,
                old(self).width as int,
                (|x: int, y: int|
                    format_module_spec(
                        old(self).width as int,
                        crate::constants::format_info_spec(ecl, mask),
                        x,
                        y,
                    )),
            ),
    {
        let w = self.width;
        let word = crate::constants::format_info(ecl, mask);
        let ghost wordi = crate::constants::format_info_spec(ecl, mask);
        let ghost target = overlay(
            old(self).value@,
            w as int,
            (|x: int, y: int| format_module_spec(w as int, wordi, x, y)),
        );
        let mut y: usize = 0;
        while y < w
            invariant
                self.wf(),
                y <= w,
                w == self.width,
                word as int == wordi,
                target.len() == w * w,
                self.value@.len() == w * w,
                target == overlay(
                    old(self).value@,
                    w as int,
                    (|x: int, y: int| format_module_spec(w as int, wordi, x, y)),
                ),
                forall|i: int| 0 <= i < y * w ==> self.value@[i] == target[i],
                forall|i: int| y * w <= i < w * w ==> self.value@[i] == old(self).value@[i],
            decreases w - y,
        {
            let mut x: usize = 0;
            while x < w
                invariant
                    self.wf(),
                    x <= w,
                    y < w,
                    w == self.width,
                    word as int == wordi,
                    target.len() == w * w,
                    self.value@.len() == w * w,
                    target == overlay(
                        old(self).value@,
                        w as int,
                        (|x: int, y: int| format_module_spec(w as int, wordi, x, y)),
                    ),
                    forall|i: int| 0 <= i < y * w + x ==> self.value@[i] == target[i],
                    forall|i: int|
                        y * w + x <= i < w * w ==> self.value@[i] == old(self).value@[i],
                decreases w - x,
            {
                proof {
                    lemma_grid_index_bounds(w as int, x as int, y as int);
                    lemma_grid_decompose(w as int, x as int, y as int);
                }
                match format_module_at(w, word, x, y) {
                    Some(m) => {
                        self.set(x, y, m);
                    },
                    None => {},
                }
                proof {
                    assert(target[y * w + x] == self.value@[y * w + x]);
                }
                x += 1;
            }
            proof {
                vstd::arithmetic::mul::lemma_mul_is_distributive_add_other_way(
                    w as int,
                    y as int,
                    1,
                );
            }
            y += 1;
        }
        proof {
            assert(self.value@ =~= target);
        }
    }

    /// Paints both copies of the version information word of the symbol's
    /// version; a no-op below version 7. See `version_module_spec`.
    pub fn set_version(&mut self)
        requires
            old(self).wf(),
        ensures
            final(self).wf(),
            final(self).width == old(self).width,
            final(self).value@ =~= overlay(
                old(self).value@,
                old(self).width as int,
                (|x: int, y: int|
                    version_module_spec(
                        old(self).width as int,
                        crate::constants::version_information_spec(
                            ((old(self).width - 17) / 4) as int,
                        ),
                        x,
                        y,
                    )),
            ),
    {
        let w = self.width;
        let version = (w - 17) / 4;
        let ghost wordi = crate::constants::version_information_spec(version as int);
        let ghost target = overlay(
            old(self).value@,
            w as int,
            (|x: int, y: int| version_module_spec(w as int, wordi, x, y)),
        );
        if version < 7 {
            proof {
                assert(self.value@ =~= target);
            }
            return;
        }
        let word = version_information(version) as u32;
        let mut y: usize = 0;
        while y < w
            invariant
                self.wf(),
                y <= w,
                w == self.width,
                word as int == wordi,
                target.len() == w * w,
                self.value@.len() == w * w,
                target == overlay(
                    old(self).value@,
                    w as int,
                    (|x: int, y: int| version_module_spec(w as int, wordi, x, y)),
                ),
                forall|i: int| 0 <= i < y * w ==> self.value@[i] == target[i],
                forall|i: int| y * w <= i < w * w ==> self.value@[i] == old(self).value@[i],
            decreases w - y,
        {
            let mut x: usize = 0;
            while x < w
                invariant
                    self.wf(),
                    x <= w,
                    y < w,
                    w == self.width,
                    word as int == wordi,
                    target.len() == w * w,
                    self.value@.len() == w * w,
                    target == overlay(
                        old(self).value@,
                        w as int,
                        (|x: int, y: int| version_module_spec(w as int, wordi, x, y)),
                    ),
                    forall|i: int| 0 <= i < y * w + x ==> self.value@[i] == target[i],
                    forall|i: int|
                        y * w + x <= i < w * w ==> self.value@[i] == old(self).value@[i],
                decreases w - x,
            {
                proof {
                    lemma_grid_index_bounds(w as int, x as int, y as int);
                    lemma_grid_decompose(w as int, x as int, y as int);
                }
                match version_module_at(w, word, x, y) {
                    Some(m) => {
                        self.set(x, y, m);
                    },
                    None => {},
                }
                proof {
                    assert(target[y * w + x] == self.value@[y * w + x]);
                }
                x += 1;
            }
            proof {
                vstd::arithmetic::mul::lemma_mul_is_distributive_add_other_way(
                    w as int,
                    y as int,
                    1,
                );
            }
            y += 1;
        }
        proof {
            assert(self.value@ =~= target);
        }
    }
}


/// Number of cells the zig-zag walk visits: every cell except the timing
/// column at x = 6.
pub open spec fn walk_len_spec(w: int) -> int {
    w * (w - 1)
}

/// Right column of the `s`-th two-column strip, walking right to left and
/// stepping over column 6.
pub open spec fn strip_col_spec(w: int, s: int) -> int {
    let c = w - 1 - 2 * s;
    if c > 6 {
        c
    } else {
        c - 1
    }
}

/// Column of the `k`-th cell of the zig-zag walk.
pub open spec fn walk_x_spec(w: int, k: int) -> int {
    strip_col_spec(w, k / (2 * w)) - (k % (2 * w)) % 2
}

/// Row of the `k`-th cell of the zig-zag walk: strips alternate between
/// walking up from the bottom and down from the top.
pub open spec fn walk_y_spec(w: int, k: int) -> int {
    let s = k / (2 * w);
    let r = k % (2 * w);
    if s % 2 == 0 {
        w - 1 - r / 2
    } else {
        r / 2
    }
}

/// The module a data cell gets: the data flag and bit `i` of the codeword
/// stream.
pub open spec fn data_module_spec(bytes: Seq<u8>, i: int) -> Module {
    Module(
        DATA | (if crate::data::bit_of_bytes(bytes, i) {
            ON
        } else {
            0
        }),
    )
}

/// The matrix and consumed-bit count after the first `k` steps of the data
/// walk: each still-blank cell in walk order is painted with the next bit
/// of the codeword stream, tagged cells are stepped over.
pub open spec fn data_fill_spec(s: Seq<Module>, w: int, bytes: Seq<u8>, k: int) -> (
    Seq<Module>,
    int,
)
    decreases k,
{
    if k <= 0 {
        (s, 0)
    } else {
        let prev = data_fill_spec(s, w, bytes, k - 1);
        let idx = grid_index(w, walk_x_spec(w, k - 1), walk_y_spec(w, k - 1));
        if 0 <= idx < prev.0.len() && prev.0[idx] == Module(0) {
            (prev.0.update(idx, data_module_spec(bytes, prev.1)), prev.1 + 1)
        } else {
            prev
        }
    }
}

proof fn lemma_data_fill_len(s: Seq<Module>, w: int, bytes: Seq<u8>, k: int)
    ensures
        data_fill_spec(s, w, bytes, k).0.len() == s.len(),
        0 <= data_fill_spec(s, w, bytes, k).1 <= (if k >= 0 {
            k
        } else {
            0int
        }),
    decreases k,
{
    if k > 0 {
        lemma_data_fill_len(s, w, bytes, k - 1);
    }
}

impl Matrix {
    /// Walks the zig-zag data order and paints every still-blank cell with
    /// the next bit of `bytes`; see `data_fill_spec`. Must run after every
    /// fixed pattern is placed.
    pub fn set_data(&mut self, bytes: &Vec<u8>)
        requires
            old(self).wf(),
            8 * bytes@.len() >= walk_len_spec(old(self).width as int),
        ensures
            final(self).wf(),
            final(self).width == old(self).width,
            final(self).value@ =~= data_fill_spec(
                old(self).value@,
                old(self).width as int,
                bytes@,
                walk_len_spec(old(self).width as int),
            ).0,
    {
        let w = self.width;
        proof {
            vstd::arithmetic::mul::lemma_mul_inequality(w as int, 177, w as int - 1);
            vstd::arithmetic::mul::lemma_mul_inequality(w as int - 1, 177, 177);
            vstd::arithmetic::mul::lemma_mul_is_commutative(w as int, w as int - 1);
            vstd::arithmetic::mul::lemma_mul_is_commutative(177, w as int - 1);
            vstd::arithmetic::mul::lemma_mul_nonnegative(w as int, w as int - 1);
        }
        let strips = (w - 1) / 2;
        let mut i: usize = 0;
        let mut strip: usize = 0;
        let ghost k = 0int;
        proof {
            assert(walk_len_spec(w as int) == 2 * w * ((w as int - 1) / 2)) by {
                vstd::arithmetic::mul::lemma_mul_is_commutative(w as int, w as int - 1);
                vstd::arithmetic::mul::lemma_mul_is_associative(2, w as int, (w as int - 1) / 2);
                vstd::arithmetic::mul::lemma_mul_is_commutative(w as int, (w as int - 1) / 2);
                vstd::arithmetic::mul::lemma_mul_is_associative(
                    w as int,
                    2,
                    (w as int - 1) / 2,
                );
                assert(2 * ((w as int - 1) / 2) == w as int - 1);
                vstd::arithmetic::mul::lemma_mul_is_distributive_sub(w as int, w as int, 1);
            }
        }
        while strip < strips
            invariant
                self.wf(),
                strip <= strips,
                w == self.width,
                w % 4 == 1,
                21 <= w <= 177,
                strips == (w as int - 1) / 2,
                8 * bytes@.len() >= walk_len_spec(w as int),
                walk_len_spec(w as int) == 2 * w * strips,
                walk_len_spec(w as int) <= 31329,
                k == 2 * w * strip,
                (data_fill_spec(old(self).value@, w as int, bytes@, k), i as int) == (
                    (self.value@, data_fill_spec(old(self).value@, w as int, bytes@, k).1),
                    data_fill_spec(old(self).value@, w as int, bytes@, k).1,
                ),
            decreases strips - strip,
        {
            let mut r: usize = 0;
            proof {
                vstd::arithmetic::mul::lemma_mul_inequality(
                    strip as int,
                    strips as int,
                    2 * w as int,
                );
                vstd::arithmetic::mul::lemma_mul_is_commutative(strip as int, 2 * w as int);
                vstd::arithmetic::mul::lemma_mul_is_commutative(strips as int, 2 * w as int);
            }
            while r < 2 * w
                invariant
                    self.wf(),
                    r <= 2 * w,
                    strip < strips,
                    w == self.width,
                    w % 4 == 1,
                    21 <= w <= 177,
                    strips == (w as int - 1) / 2,
                    8 * bytes@.len() >= walk_len_spec(w as int),
                    walk_len_spec(w as int) == 2 * w * strips,
                    walk_len_spec(w as int) <= 31329,
                    k == 2 * w * strip + r,
                    k <= walk_len_spec(w as int),
                    (data_fill_spec(old(self).value@, w as int, bytes@, k), i as int) == (
                        (self.value@, data_fill_spec(old(self).value@, w as int, bytes@, k).1),
                        data_fill_spec(old(self).value@, w as int, bytes@, k).1,
                    ),
                decreases 2 * w - r,
            {
                proof {
                    vstd::arithmetic::div_mod::lemma_fundamental_div_mod_converse(
                        k,
                        2 * w as int,
                        strip as int,
                        r as int,
                    );
                    lemma_data_fill_len(old(self).value@, w as int, bytes@, k);
                    vstd::arithmetic::mul::lemma_mul_inequality(
                        strip as int + 1,
                        strips as int,
                        2 * w as int,
                    );
                    vstd::arithmetic::mul::lemma_mul_is_commutative(strip as int + 1, 2 * w as int);
                    vstd::arithmetic::mul::lemma_mul_is_commutative(strips as int, 2 * w as int);
                    vstd::arithmetic::mul::lemma_mul_is_commutative(strip as int, 2 * w as int);
                    vstd::arithmetic::mul::lemma_mul_basics(2 * w as int);
                    vstd::arithmetic::mul::lemma_mul_is_distributive_add_other_way(
                        2 * w as int,
                        strip as int,
                        1,
                    );
                }
                let c = w - 1 - 2 * strip;
                let col = if c > 6 {
                    c
                } else {
                    c - 1
                };
                let x = col - r % 2;
                let y = if strip % 2 == 0 {
                    w - 1 - r / 2
                } else {
                    r / 2
                };
                proof {
                    assert(x as int == walk_x_spec(w as int, k));
                    assert(y as int == walk_y_spec(w as int, k));
                    lemma_grid_index_bounds(w as int, x as int, y as int);
                }
                let cur = self.get(x, y);
                if cur == Module(0) {
                    proof {
                        vstd::arithmetic::div_mod::lemma_fundamental_div_mod(i as int, 8);
                        assert(i as int <= k);
                        assert(k < walk_len_spec(w as int));
                        assert((i as int) < 8 * bytes@.len());
                        assert(i / 8 < bytes.len());
                    }
                    let bit = (bytes[i / 8] >> (7 - (i % 8)) as u32) & 1;
                    self.set(x, y, Module(DATA | bit));
                    proof {
                        crate::data::lemma_bit_and_one();
                        assert(Module(DATA | bit) == data_module_spec(bytes@, i as int));
                    }
                    i += 1;
                }
                proof {
                    k = k + 1;
                    assert((data_fill_spec(old(self).value@, w as int, bytes@, k), i as int) == (
                        (self.value@, data_fill_spec(old(self).value@, w as int, bytes@, k).1),
                        data_fill_spec(old(self).value@, w as int, bytes@, k).1,
                    ));
                }
                r += 1;
            }
            proof {
                vstd::arithmetic::mul::lemma_mul_is_distributive_add(2 * w as int, strip as int, 1);
            }
            strip += 1;
        }
    }

    /// XORs the mask predicate into the rendered bit of every data cell;
    /// see `mask_overlay_spec`.
    pub fn apply_mask(&mut self, mask: crate::qr_code::Mask)
        requires
            old(self).wf(),
        ensures
            final(self).wf(),
            final(self).width == old(self).width,
            final(self).value@ =~= mask_overlay_spec(
                old(self).value@,
                old(self).width as int,
                mask,
            ),
    {
        let w = self.width;
        let ghost target = mask_overlay_spec(old(self).value@, w as int, mask);
        let mut y: usize = 0;
        while y < w
            invariant
                self.wf(),
                y <= w,
                w == self.width,
                target.len() == w * w,
                self.value@.len() == w * w,
                target == mask_overlay_spec(old(self).value@, w as int, mask),
                forall|i: int| 0 <= i < y * w ==> self.value@[i] == target[i],
                forall|i: int| y * w <= i < w * w ==> self.value@[i] == old(self).value@[i],
            decreases w - y,
        {
            let mut x: usize = 0;
            while x < w
                invariant
                    self.wf(),
                    x <= w,
                    y < w,
                    w == self.width,
                    target.len() == w * w,
                    self.value@.len() == w * w,
                    target == mask_overlay_spec(old(self).value@, w as int, mask),
                    forall|i: int| 0 <= i < y * w + x ==> self.value@[i] == target[i],
                    forall|i: int|
                        y * w + x <= i < w * w ==> self.value@[i] == old(self).value@[i],
                decreases w - x,
            {
                proof {
                    lemma_grid_index_bounds(w as int, x as int, y as int);
                    lemma_grid_decompose(w as int, x as int, y as int);
                }
                let cur = self.get(x, y);
                if cur.has(Module(DATA)) {
                    let flip = crate::mask_fn(mask, x as u16, y as u16);
                    let b: u8 = if flip {
                        1
                    } else {
                        0
                    };
                    self.set(x, y, Module(cur.0 ^ b));
                }
                proof {
                    assert(target[y * w + x] == self.value@[y * w + x]);
                }
                x += 1;
            }
            proof {
                vstd::arithmetic::mul::lemma_mul_is_distributive_add_other_way(
                    w as int,
                    y as int,
                    1,
                );
            }
            y += 1;
        }
        proof {
            assert(self.value@ =~= target);
        }
    }
}

/// XOR of the mask bit into the rendered bit of a module.
pub open spec fn xor_on_spec(m: Module, b: bool) -> Module {
    Module(
        m.0 ^ (if b {
            1u8
        } else {
            0u8
        }),
    )
}

/// The matrix after a mask pass: the rendered bit of every data cell is
/// XORed with the mask predicate, every other cell kept.
pub open spec fn mask_overlay_spec(s: Seq<Module>, w: int, mask: crate::qr_code::Mask) -> Seq<
    Module,
> {
    Seq::new(
        s.len(),
        |i: int|
            if s[i].has_spec(Module(DATA)) {
                xor_on_spec(s[i], crate::mask_bit_spec(mask, i % w, i / w))
            } else {
                s[i]
            },
    )
}

} // verus!
