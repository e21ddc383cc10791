//! The blackboard: what one entity knows and what the evaluator records
//! about it from tick to tick.

use vstd::prelude::*;
use vstd::hash_map::StringHashMap;
use vstd::string::*;
use crate::scalar::{floor_sqrt, isqrt, lemma_floor_sqrt_exists, lemma_floor_sqrt_lower_bound, SCALE};

verus! {

/// The quotient of `a` by a positive `b`, rounded toward zero.
pub open spec fn quotient_toward_zero(a: int, b: int) -> int
    recommends
        b > 0,
{
    if a >= 0 {
        a / b
    } else {
        -((-a) / b)
    }
}

/// `x` where it is a 64-bit quantity, else the nearest one.
pub open spec fn clamp_quantity(x: int) -> i64 {
    if x > i64::MAX {
        i64::MAX
    } else if x < i64::MIN {
        i64::MIN
    } else {
        x as i64
    }
}

/// A blackboard as a mathematical value.
pub struct ContextView {
    /// The open store: the quantities written so far, by key.
    pub values: Map<Seq<char>, i64>,
    pub target_x: i64,
    pub target_y: i64,
    pub target_z: i64,
    pub entity_x: i64,
    pub entity_y: i64,
    pub entity_z: i64,
    pub entity_health: i64,
    pub entity_max_health: i64,
    pub entity_type: u32,
}

impl ContextView {
    /// The blackboard of a fresh entity: an empty store, everything at the
    /// origin, full health of one hundred, classification zero.
    pub open spec fn initial() -> ContextView {
        ContextView {
            values: Map::empty(),
            target_x: 0,
            target_y: 0,
            target_z: 0,
            entity_x: 0,
            entity_y: 0,
            entity_z: 0,
            entity_health: 100_000,
            entity_max_health: 100_000,
            entity_type: 0,
        }
    }

    /// What a read of `key` gives: the quantity last written under it, and
    /// zero where nothing was.
    pub open spec fn value(self, key: Seq<char>) -> i64 {
        if self.values.contains_key(key) {
            self.values[key]
        } else {
            0
        }
    }

    /// This blackboard after `value` is written under `key`.
    pub open spec fn with_value(self, key: Seq<char>, value: i64) -> ContextView {
        ContextView { values: self.values.insert(key, value), ..self }
    }

    /// The square of the distance between entity and target.
    pub open spec fn distance_squared(self) -> nat {
        let dx = self.target_x - self.entity_x;
        let dy = self.target_y - self.entity_y;
        let dz = self.target_z - self.entity_z;
        (dx * dx + dy * dy + dz * dz) as nat
    }

    /// The distance between entity and target, rounded down to a quantity,
    /// and the largest quantity where it is beyond all of them.
    pub open spec fn distance_to_target(self) -> i64 {
        clamp_quantity(floor_sqrt(self.distance_squared()) as int)
    }

    /// Whether the target is within `range` of the entity: whether the
    /// distance between them, unrounded, is at most `range`.
    pub open spec fn target_within(self, range: i64) -> bool {
        range >= 0 && self.distance_squared() <= range * range
    }

    /// Whether health is at most the fraction `fraction` of full health,
    /// unrounded; health counts as none where full health is not positive.
    pub open spec fn health_at_most(self, fraction: i64) -> bool {
        if self.entity_max_health <= 0 {
            0 <= fraction
        } else {
            self.entity_health * SCALE <= fraction * self.entity_max_health
        }
    }

    /// Health as a fraction of full health, rounded toward zero; zero where
    /// full health is not positive.
    pub open spec fn health_fraction(self) -> i64 {
        if self.entity_max_health <= 0 {
            0
        } else {
            clamp_quantity(
                quotient_toward_zero(self.entity_health * SCALE, self.entity_max_health as int),
            )
        }
    }
}

/// The blackboard of one entity.
pub struct BehaviorContext {
    values: StringHashMap<i64>,
    target_x: i64,
    target_y: i64,
    target_z: i64,
    entity_x: i64,
    entity_y: i64,
    entity_z: i64,
    entity_health: i64,
    entity_max_health: i64,
    entity_type: u32,
}

impl View for BehaviorContext {
    type V = ContextView;

    closed spec fn view(&self) -> ContextView {
        ContextView {
            values: self.values@,
            target_x: self.target_x,
            target_y: self.target_y,
            target_z: self.target_z,
            entity_x: self.entity_x,
            entity_y: self.entity_y,
            entity_z: self.entity_z,
            entity_health: self.entity_health,
            entity_max_health: self.entity_max_health,
            entity_type: self.entity_type,
        }
    }
}

/// The size of a difference of two quantities.
fn magnitude(a: i64, b: i64) -> (m: u128)
    ensures
        m == if a - b >= 0 {
            a - b
        } else {
            b - a
        },
        m <= u64::MAX,
{
    let d: i128 = a as i128 - b as i128;
    if d >= 0 {
        d as u128
    } else {
        (-d) as u128
    }
}

impl BehaviorContext {
    /// A fresh blackboard.
    pub fn new() -> (context: BehaviorContext)
        ensures
            context@ == ContextView::initial(),
    {
        BehaviorContext {
            values: StringHashMap::new(),
            target_x: 0,
            target_y: 0,
            target_z: 0,
            entity_x: 0,
            entity_y: 0,
            entity_z: 0,
            entity_health: 100_000,
            entity_max_health: 100_000,
            entity_type: 0,
        }
    }

    /// Writes `value` under `key`, over whatever was there.
    pub fn set_value(&mut self, key: &str, value: i64)
        ensures
            final(self)@ == old(self)@.with_value(key@, value),
    {
        self.values.insert(String::from_str(key), value);
    }

    /// Reads the quantity under `key`; zero where none was written.
    pub fn get_value(&self, key: &str) -> (value: i64)
        ensures
            value == self@.value(key@),
    {
        match self.values.get(key) {
            Some(v) => *v,
            None => 0,
        }
    }

    /// Sets where the target is.
    pub fn set_target_position(&mut self, x: i64, y: i64, z: i64)
        ensures
            final(self)@ == (ContextView { target_x: x, target_y: y, target_z: z, ..old(self)@ }),
    {
        self.target_x = x;
        self.target_y = y;
        self.target_z = z;
    }

    /// Sets where the entity is.
    pub fn set_entity_position(&mut self, x: i64, y: i64, z: i64)
        ensures
            final(self)@ == (ContextView { entity_x: x, entity_y: y, entity_z: z, ..old(self)@ }),
    {
        self.entity_x = x;
        self.entity_y = y;
        self.entity_z = z;
    }

    /// Sets the entity's health and full health. Nothing is refused.
    pub fn set_entity_health(&mut self, health: i64, max_health: i64)
        ensures
            final(self)@ == (ContextView {
                entity_health: health,
                entity_max_health: max_health,
                ..old(self)@
            }),
    {
        self.entity_health = health;
        self.entity_max_health = max_health;
    }

    /// Sets the entity's classification.
    pub fn set_entity_type(&mut self, entity_type: u32)
        ensures
            final(self)@ == (ContextView { entity_type, ..old(self)@ }),
    {
        self.entity_type = entity_type;
    }

    /// The entity's classification.
    pub fn entity_type(&self) -> (entity_type: u32)
        ensures
            entity_type == self@.entity_type,
    {
        self.entity_type
    }

    /// The square of the distance between entity and target, where it is
    /// below two to the power of 126.
    fn squared_distance(&self) -> (sum: Option<u128>)
        ensures
            match sum {
                Some(s) => s == self@.distance_squared(),
                None => self@.distance_squared() >= 0x4000_0000_0000_0000_0000_0000_0000_0000,
            },
    {
        let dx: u128 = magnitude(self.target_x, self.entity_x);
        let dy: u128 = magnitude(self.target_y, self.entity_y);
        let dz: u128 = magnitude(self.target_z, self.entity_z);
        let ghost squared = self@.distance_squared();
        proof {
            assert(dx * dx == (self.target_x - self.entity_x) * (self.target_x - self.entity_x))
                by (nonlinear_arith)
                requires
                    dx == self.target_x - self.entity_x || dx == -(self.target_x - self.entity_x),
            ;
            assert(dy * dy == (self.target_y - self.entity_y) * (self.target_y - self.entity_y))
                by (nonlinear_arith)
                requires
                    dy == self.target_y - self.entity_y || dy == -(self.target_y - self.entity_y),
            ;
            assert(dz * dz == (self.target_z - self.entity_z) * (self.target_z - self.entity_z))
                by (nonlinear_arith)
                requires
                    dz == self.target_z - self.entity_z || dz == -(self.target_z - self.entity_z),
            ;
            assert(dx * dx >= 0 && dy * dy >= 0 && dz * dz >= 0) by (nonlinear_arith);
            assert(squared == dx * dx + dy * dy + dz * dz);
        }
        let limit: u128 = 0x8000_0000_0000_0000;
        if dx >= limit || dy >= limit || dz >= limit {
            proof {
                let big: int = if dx >= limit {
                    dx as int
                } else if dy >= limit {
                    dy as int
                } else {
                    dz as int
                };
                assert(big * big >= 0x8000_0000_0000_0000int * 0x8000_0000_0000_0000int)
                    by (nonlinear_arith)
                    requires
                        big >= 0x8000_0000_0000_0000int,
                ;
                assert(0x8000_0000_0000_0000int * 0x8000_0000_0000_0000int
                    == 0x4000_0000_0000_0000_0000_0000_0000_0000int);
            }
            return None;
        }
        assert(dx * dx <= 0x7FFF_FFFF_FFFF_FFFFint * 0x7FFF_FFFF_FFFF_FFFFint) by (nonlinear_arith)
            requires
                0 <= dx <= 0x7FFF_FFFF_FFFF_FFFFint,
        ;
        assert(dy * dy <= 0x7FFF_FFFF_FFFF_FFFFint * 0x7FFF_FFFF_FFFF_FFFFint) by (nonlinear_arith)
            requires
                0 <= dy <= 0x7FFF_FFFF_FFFF_FFFFint,
        ;
        assert(dz * dz <= 0x7FFF_FFFF_FFFF_FFFFint * 0x7FFF_FFFF_FFFF_FFFFint) by (nonlinear_arith)
            requires
                0 <= dz <= 0x7FFF_FFFF_FFFF_FFFFint,
        ;
        assert(3 * (0x7FFF_FFFF_FFFF_FFFFint * 0x7FFF_FFFF_FFFF_FFFFint) <= u128::MAX);
        Some(dx * dx + dy * dy + dz * dz)
    }

    /// The distance between entity and target.
    pub fn get_distance_to_target(&self) -> (distance: i64)
        ensures
            distance == self@.distance_to_target(),
    {
        proof {
            lemma_floor_sqrt_exists(self@.distance_squared());
        }
        match self.squared_distance() {
            None => {
                proof {
                    assert(0x8000_0000_0000_0000nat * 0x8000_0000_0000_0000nat
                        == 0x4000_0000_0000_0000_0000_0000_0000_0000nat);
                    lemma_floor_sqrt_lower_bound(0x8000_0000_0000_0000nat, self@.distance_squared());
                }
                i64::MAX
            },
            Some(sum) => {
                let root: u64 = isqrt(sum);
                if root > i64::MAX as u64 {
                    i64::MAX
                } else {
                    root as i64
                }
            },
        }
    }

    /// Whether the target is within `range` of the entity. The squares are
    /// compared, so nothing is rounded.
    pub fn is_target_within(&self, range: i64) -> (within: bool)
        ensures
            within == self@.target_within(range),
    {
        if range < 0 {
            return false;
        }
        let reach: u128 = range as u128;
        assert(reach * reach <= 0x7FFF_FFFF_FFFF_FFFFint * 0x7FFF_FFFF_FFFF_FFFFint)
            by (nonlinear_arith)
            requires
                0 <= reach <= 0x7FFF_FFFF_FFFF_FFFFint,
        ;
        assert(0x7FFF_FFFF_FFFF_FFFFint * 0x7FFF_FFFF_FFFF_FFFFint
            < 0x4000_0000_0000_0000_0000_0000_0000_0000int);
        match self.squared_distance() {
            None => false,
            Some(sum) => sum <= reach * reach,
        }
    }

    /// Whether health is at most the fraction `fraction` of full health,
    /// where health counts as none if full health is not positive. The
    /// products are compared, so nothing is rounded.
    pub fn is_health_at_most(&self, fraction: i64) -> (at_most: bool)
        ensures
            at_most == self@.health_at_most(fraction),
    {
        if self.entity_max_health <= 0 {
            return 0 <= fraction;
        }
        assert(-0x8000_0000_0000_0000 * 1000 <= self.entity_health * SCALE <= 0x7FFF_FFFF_FFFF_FFFF
            * 1000) by (nonlinear_arith)
            requires
                SCALE == 1000,
                -0x8000_0000_0000_0000 <= self.entity_health <= 0x7FFF_FFFF_FFFF_FFFF,
        ;
        assert(-0x8000_0000_0000_0000int * 0x8000_0000_0000_0000int <= fraction
            * self.entity_max_health <= 0x8000_0000_0000_0000int * 0x8000_0000_0000_0000int)
            by (nonlinear_arith)
            requires
                -0x8000_0000_0000_0000 <= fraction <= 0x7FFF_FFFF_FFFF_FFFF,
                0 < self.entity_max_health <= 0x7FFF_FFFF_FFFF_FFFF,
        ;
        assert(0x8000_0000_0000_0000int * 0x8000_0000_0000_0000int
            == 0x4000_0000_0000_0000_0000_0000_0000_0000int);
        let health: i128 = self.entity_health as i128 * SCALE as i128;
        let share: i128 = fraction as i128 * self.entity_max_health as i128;
        health <= share
    }

    /// Health as a fraction of full health; zero where full health is not
    /// positive.
    pub fn get_health_percentage(&self) -> (fraction: i64)
        ensures
            fraction == self@.health_fraction(),
            self@.entity_max_health <= 0 ==> fraction == 0,
    {
        if self.entity_max_health <= 0 {
            return 0;
        }
        assert(-0x8000_0000_0000_0000 * 1000 <= self.entity_health * SCALE <= 0x7FFF_FFFF_FFFF_FFFF
            * 1000) by (nonlinear_arith)
            requires
                SCALE == 1000,
                -0x8000_0000_0000_0000 <= self.entity_health <= 0x7FFF_FFFF_FFFF_FFFF,
        ;
        let scaled: i128 = self.entity_health as i128 * SCALE as i128;
        let full: i128 = self.entity_max_health as i128;
        let quotient: i128 = if scaled >= 0 {
            scaled / full
        } else {
            -((-scaled) / full)
        };
        if quotient > i64::MAX as i128 {
            i64::MAX
        } else if quotient < i64::MIN as i128 {
            i64::MIN
        } else {
            quotient as i64
        }
    }
}

} // verus!
