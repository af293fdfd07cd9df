use vstd::prelude::*;

verus! {

/// Rank of positive infinity: the largest rank that a number has.
pub const RANK_INFINITY: i32 = 0x7f80_0000;

/// Rank of 1.
pub const RANK_ONE: i32 = 0x3f80_0000;

/// Rank of the largest finite number.
pub const RANK_MAX: i32 = 0x7f7f_ffff;

/// A single-precision floating-point number, held as its rank: the numbers
/// from negative to positive infinity, counted from zero, so that a greater
/// number has a greater rank. The two zeros share rank 0. Not-a-number has
/// no rank and compares as the floating-point one does: neither less nor
/// greater than, nor equal to, anything.
#[derive(Clone, Copy, Debug, PartialEq, Eq, Structural)]
pub struct Scalar {
    nan: bool,
    rank: i32,
}

impl Scalar {
    /// Whether this is not-a-number.
    pub closed spec fn is_nan(self) -> bool {
        self.nan
    }

    /// The rank of the number; 0 for not-a-number.
    pub closed spec fn rank(self) -> int {
        self.rank as int
    }

    pub open spec fn wf(self) -> bool {
        &&& -RANK_INFINITY <= self.rank() <= RANK_INFINITY
        &&& self.is_nan() ==> self.rank() == 0
    }

    /// The number of rank `rank`.
    pub closed spec fn number(rank: int) -> Scalar {
        Scalar { nan: false, rank: rank as i32 }
    }

    /// Not-a-number.
    pub closed spec fn not_a_number() -> Scalar {
        Scalar { nan: true, rank: 0 }
    }

    /// The number of a rank has that rank, and not-a-number has none.
    pub proof fn lemma_number(rank: int)
        requires
            -RANK_INFINITY <= rank <= RANK_INFINITY,
        ensures
            Scalar::number(rank).rank() == rank,
            !Scalar::number(rank).is_nan(),
            Scalar::number(rank).wf(),
            Scalar::not_a_number().is_nan(),
            Scalar::not_a_number().wf(),
    {
    }

    /// `self > other` as floating-point numbers compare.
    pub open spec fn gt(self, other: Scalar) -> bool {
        !self.is_nan() && !other.is_nan() && self.rank() > other.rank()
    }

    /// `self < other` as floating-point numbers compare.
    pub open spec fn lt(self, other: Scalar) -> bool {
        !self.is_nan() && !other.is_nan() && self.rank() < other.rank()
    }

    /// The greater of two numbers; the other one where one is not-a-number.
    pub open spec fn spec_max(self, other: Scalar) -> Scalar {
        if self.is_nan() {
            other
        } else if other.is_nan() {
            self
        } else if self.rank() >= other.rank() {
            self
        } else {
            other
        }
    }

    /// The smaller of two numbers; the other one where one is not-a-number.
    pub open spec fn spec_min(self, other: Scalar) -> Scalar {
        if self.is_nan() {
            other
        } else if other.is_nan() {
            self
        } else if self.rank() <= other.rank() {
            self
        } else {
            other
        }
    }

    /// What the bit pattern `bits` of a single-precision number stands for:
    /// the low 31 bits are the rank of its magnitude, above that of infinity
    /// they spell not-a-number, and the top bit is the sign.
    pub open spec fn spec_from_bits(bits: u32) -> Scalar {
        let magnitude = bits as int % 0x8000_0000;
        if magnitude > RANK_INFINITY {
            Scalar::not_a_number()
        } else if bits >= 0x8000_0000 {
            Scalar::number(-magnitude)
        } else {
            Scalar::number(magnitude)
        }
    }

    /// A bit pattern of the scalar: the quiet not-a-number, or the number
    /// with its sign bit; zero is given as positive zero.
    pub open spec fn spec_to_bits(self) -> u32 {
        if self.is_nan() {
            0x7fc0_0000
        } else if self.rank() < 0 {
            (0x8000_0000 - self.rank()) as u32
        } else {
            self.rank() as u32
        }
    }

    /// Reading the bits of a scalar gives the scalar back.
    pub proof fn lemma_bits_round_trip(self)
        requires
            self.wf(),
        ensures
            Scalar::spec_from_bits(self.spec_to_bits()) == self,
    {
    }

    /// The scalar that the bit pattern `bits` stands for.
    pub fn from_bits(bits: u32) -> (scalar: Scalar)
        ensures
            scalar == Scalar::spec_from_bits(bits),
            scalar.wf(),
    {
        let magnitude: u32 = bits & 0x7fff_ffff;
        assert(bits & 0x7fff_ffff == bits % 0x8000_0000) by (bit_vector);
        if magnitude > 0x7f80_0000 {
            Scalar { nan: true, rank: 0 }
        } else if bits >= 0x8000_0000 {
            Scalar { nan: false, rank: -(magnitude as i32) }
        } else {
            Scalar { nan: false, rank: magnitude as i32 }
        }
    }

    /// A bit pattern that stands for the scalar.
    pub fn to_bits(self) -> (bits: u32)
        requires
            self.wf(),
        ensures
            bits == self.spec_to_bits(),
    {
        if self.nan {
            0x7fc0_0000
        } else if self.rank < 0 {
            0x8000_0000u32 + ((-self.rank) as u32)
        } else {
            self.rank as u32
        }
    }

    /// The number of rank `rank`.
    pub fn from_rank(rank: i32) -> (scalar: Scalar)
        requires
            -RANK_INFINITY <= rank <= RANK_INFINITY,
        ensures
            scalar == Scalar::number(rank as int),
            scalar.wf(),
    {
        Scalar { nan: false, rank }
    }

    /// Zero.
    pub fn zero() -> (scalar: Scalar)
        ensures
            scalar == Scalar::number(0),
            scalar.wf(),
    {
        Scalar { nan: false, rank: 0 }
    }

    /// One.
    pub fn one() -> (scalar: Scalar)
        ensures
            scalar == Scalar::number(RANK_ONE as int),
            scalar.wf(),
    {
        Scalar { nan: false, rank: RANK_ONE }
    }

    /// The lowest finite number.
    pub fn lowest() -> (scalar: Scalar)
        ensures
            scalar == Scalar::number(-RANK_MAX),
            scalar.wf(),
    {
        Scalar { nan: false, rank: -RANK_MAX }
    }

    /// Negative infinity.
    pub fn neg_infinity() -> (scalar: Scalar)
        ensures
            scalar == Scalar::number(-RANK_INFINITY),
            scalar.wf(),
    {
        Scalar { nan: false, rank: -RANK_INFINITY }
    }

    pub fn is_greater(self, other: Scalar) -> (greater: bool)
        ensures
            greater == self.gt(other),
    {
        !self.nan && !other.nan && self.rank > other.rank
    }

    pub fn is_less(self, other: Scalar) -> (less: bool)
        ensures
            less == self.lt(other),
    {
        !self.nan && !other.nan && self.rank < other.rank
    }

    pub fn max(self, other: Scalar) -> (greater: Scalar)
        ensures
            greater == self.spec_max(other),
    {
        if self.nan {
            other
        } else if other.nan {
            self
        } else if self.rank >= other.rank {
            self
        } else {
            other
        }
    }

    pub fn min(self, other: Scalar) -> (smaller: Scalar)
        ensures
            smaller == self.spec_min(other),
    {
        if self.nan {
            other
        } else if other.nan {
            self
        } else if self.rank <= other.rank {
            self
        } else {
            other
        }
    }

    /// 1 for a number that is zero or more, -1 for any other and for not-a-number.
    pub open spec fn spec_sign(self) -> int {
        if !self.is_nan() && self.rank() >= 0 {
            1
        } else {
            -1
        }
    }

    pub fn sign(self) -> (sign: i8)
        ensures
            sign == self.spec_sign(),
    {
        if !self.nan && self.rank >= 0 {
            1
        } else {
            -1
        }
    }
}

/// One axis of a sweep: the fractions of the step at which the moving box
/// reaches the other box and leaves it again on this axis, both negative
/// infinity where it does not move along the axis, and its velocity.
#[derive(Clone, Copy, Debug, PartialEq, Eq, Structural)]
pub struct AxisSweep {
    pub entry: Scalar,
    pub exit: Scalar,
    pub velocity: Scalar,
}

/// Direction of a surface: -1, 0 or 1 on each axis.
#[derive(Clone, Copy, Debug, PartialEq, Eq, Structural)]
pub struct Normal {
    pub x: i8,
    pub y: i8,
    pub z: i8,
}

/// Outcome of a sweep: the fraction of the step after which the boxes
/// touch, and the direction of the surface that was hit. A miss has time 1
/// and no direction.
#[derive(Clone, Copy, Debug, PartialEq, Eq, Structural)]
pub struct SweptResult {
    pub time: Scalar,
    pub normal: Normal,
}

/// An entry time as the sweep counts it: one that lies behind the end of the
/// step counts as the lowest finite number.
pub open spec fn counted_entry(entry: Scalar) -> Scalar {
    if entry.gt(Scalar::number(RANK_ONE as int)) {
        Scalar::number(-RANK_MAX)
    } else {
        entry
    }
}

/// The outcome of a miss.
pub open spec fn miss() -> SweptResult {
    SweptResult { time: Scalar::number(RANK_ONE as int), normal: Normal { x: 0, y: 0, z: 0 } }
}

/// The latest of the three counted entry times.
pub open spec fn entry_time(x: AxisSweep, y: AxisSweep, z: AxisSweep) -> Scalar {
    counted_entry(x.entry).spec_max(counted_entry(y.entry).spec_max(counted_entry(z.entry)))
}

/// The earliest of the three exit times.
pub open spec fn exit_time(x: AxisSweep, y: AxisSweep, z: AxisSweep) -> Scalar {
    x.exit.spec_min(y.exit.spec_min(z.exit))
}

/// Whether the sweep is a miss: the boxes would part on one axis before
/// they meet on another, or they meet on no axis within the step.
pub open spec fn misses(x: AxisSweep, y: AxisSweep, z: AxisSweep) -> bool {
    let zero = Scalar::number(0);
    let one = Scalar::number(RANK_ONE as int);
    let (ex, ey, ez) = (counted_entry(x.entry), counted_entry(y.entry), counted_entry(z.entry));
    ||| entry_time(x, y, z).gt(exit_time(x, y, z))
    ||| (ex.lt(zero) && ey.lt(zero) && ez.lt(zero))
    ||| ex.gt(one)
    ||| ey.gt(one)
    ||| ez.gt(one)
}

/// The surface that a hit meets: that of the axis with the latest entry,
/// facing against the motion. x wins over y only where it is strictly
/// later, and the winner wins over z only where it is strictly later.
pub open spec fn hit_normal(x: AxisSweep, y: AxisSweep, z: AxisSweep) -> Normal {
    let (ex, ey, ez) = (counted_entry(x.entry), counted_entry(y.entry), counted_entry(z.entry));
    if ex.gt(ey) {
        if ex.gt(ez) {
            Normal { x: (-x.velocity.spec_sign()) as i8, y: 0, z: 0 }
        } else {
            Normal { x: 0, y: 0, z: (-z.velocity.spec_sign()) as i8 }
        }
    } else {
        if ey.gt(ez) {
            Normal { x: 0, y: (-y.velocity.spec_sign()) as i8, z: 0 }
        } else {
            Normal { x: 0, y: 0, z: (-z.velocity.spec_sign()) as i8 }
        }
    }
}

/// The outcome of the sweep with the axes `x`, `y` and `z`.
pub open spec fn spec_swept_aabb(x: AxisSweep, y: AxisSweep, z: AxisSweep) -> SweptResult {
    if misses(x, y, z) {
        miss()
    } else {
        SweptResult { time: entry_time(x, y, z), normal: hit_normal(x, y, z) }
    }
}

/// Decides a sweep of a moving box against another from the times of each axis.
pub fn swept_aabb(x: AxisSweep, y: AxisSweep, z: AxisSweep) -> (result: SweptResult)
    ensures
        result == spec_swept_aabb(x, y, z),
        x.entry.wf() && y.entry.wf() && z.entry.wf() ==> result.time.wf(),
{
    let one = Scalar::one();
    let zero = Scalar::zero();
    let mut entry_x = x.entry;
    let mut entry_y = y.entry;
    let mut entry_z = z.entry;

    if entry_x.is_greater(one) {
        entry_x = Scalar::lowest();
    }
    if entry_y.is_greater(one) {
        entry_y = Scalar::lowest();
    }
    if entry_z.is_greater(one) {
        entry_z = Scalar::lowest();
    }

    // find the earliest/latest times of collision
    let entry_time = entry_x.max(entry_y.max(entry_z));
    let exit_time = x.exit.min(y.exit.min(z.exit));

    // if there was no collision
    if entry_time.is_greater(exit_time) || (entry_x.is_less(zero) && entry_y.is_less(zero)
        && entry_z.is_less(zero)) || entry_x.is_greater(one) || entry_y.is_greater(one)
        || entry_z.is_greater(one) {
        SweptResult { time: one, normal: Normal { x: 0, y: 0, z: 0 } }
    } else {
        let normal = if entry_x.is_greater(entry_y) {
            if entry_x.is_greater(entry_z) {
                Normal { x: -x.velocity.sign(), y: 0, z: 0 }
            } else {
                Normal { x: 0, y: 0, z: -z.velocity.sign() }
            }
        } else {
            if entry_y.is_greater(entry_z) {
                Normal { x: 0, y: -y.velocity.sign(), z: 0 }
            } else {
                Normal { x: 0, y: 0, z: -z.velocity.sign() }
            }
        };
        SweptResult { time: entry_time, normal }
    }
}

/// A hit comes within the step, and its surface faces along one axis. A
/// miss has time 1 and no direction.
pub proof fn lemma_swept_outcome(x: AxisSweep, y: AxisSweep, z: AxisSweep)
    requires
        x.entry.wf(),
        y.entry.wf(),
        z.entry.wf(),
    ensures
        !spec_swept_aabb(x, y, z).time.gt(Scalar::number(RANK_ONE as int)),
        misses(x, y, z) ==> spec_swept_aabb(x, y, z) == miss(),
        !misses(x, y, z) ==> {
            let normal = spec_swept_aabb(x, y, z).normal;
            ||| (normal.x == -x.velocity.spec_sign() && normal.y == 0 && normal.z == 0)
            ||| (normal.x == 0 && normal.y == -y.velocity.spec_sign() && normal.z == 0)
            ||| (normal.x == 0 && normal.y == 0 && normal.z == -z.velocity.spec_sign())
        },
{
}

/// A box that does not move along some axis hits nothing: the exit time of
/// that axis, negative infinity, lies before every entry.
pub proof fn lemma_axis_at_rest_misses(x: AxisSweep, y: AxisSweep, z: AxisSweep)
    requires
        x.entry.wf() && y.entry.wf() && z.entry.wf(),
        x.exit.wf() && y.exit.wf() && z.exit.wf(),
        !x.entry.is_nan() && !y.entry.is_nan() && !z.entry.is_nan(),
        !x.exit.is_nan() && !y.exit.is_nan() && !z.exit.is_nan(),
        ({
            let at_rest = Scalar::number(-RANK_INFINITY);
            ||| (x.entry == at_rest && x.exit == at_rest)
            ||| (y.entry == at_rest && y.exit == at_rest)
            ||| (z.entry == at_rest && z.exit == at_rest)
        }),
    ensures
        spec_swept_aabb(x, y, z) == miss(),
{
}

} // verus!
