//! Sizes, positions and deltas on the screen, measured in physical pixels: the actual pixels of the device.
use vstd::prelude::*;

verus! {

/// Physical size: a size measured in physical (actual) pixels on the device, such as the resolution of a display.
#[derive(Copy, Clone, PartialEq, Eq, Structural, PartialOrd, Ord, Hash, Debug)]
pub struct PhysicalSize {
    pub width: u64,
    pub height: u64,
}

impl Default for PhysicalSize {
    /// The size of zero width and zero height.
    fn default() -> (r: Self)
        ensures
            r.width == 0 && r.height == 0,
    {
        PhysicalSize { width: 0, height: 0 }
    }
}

impl PhysicalSize {
    /// The size of `width` by `height` pixels.
    pub fn new(width: u64, height: u64) -> (r: Self)
        ensures
            r.width == width,
            r.height == height,
    {
        Self { width, height }
    }

    /// Whether both the width and the height are zero.
    pub fn is_zero(&self) -> (r: bool)
        ensures
            r == (self.width == 0 && self.height == 0),
    {
        self.width == 0 && self.height == 0
    }

    /// This size with its width and its height multiplied by `rhs`.
    pub fn mul(self, rhs: u64) -> (r: Self)
        requires
            self.width * rhs <= u64::MAX,
            self.height * rhs <= u64::MAX,
        ensures
            r.width == self.width * rhs,
            r.height == self.height * rhs,
    {
        Self::new(self.width * rhs, self.height * rhs)
    }

    /// The width and the height.
    pub fn to_tuple(self) -> (r: (u64, u64))
        ensures
            r == (self.width, self.height),
    {
        (self.width, self.height)
    }

    /// The width and the height.
    pub fn to_array(self) -> (r: [u64; 2])
        ensures
            r@ == seq![self.width, self.height],
    {
        [self.width, self.height]
    }
}

impl From<(u64, u64)> for PhysicalSize {
    fn from(v: (u64, u64)) -> (r: Self) {
        Self::new(v.0, v.1)
    }
}

impl vstd::std_specs::convert::FromSpecImpl<(u64, u64)> for PhysicalSize {
    open spec fn obeys_from_spec() -> bool {
        true
    }

    open spec fn from_spec(v: (u64, u64)) -> Self {
        PhysicalSize { width: v.0, height: v.1 }
    }
}

impl From<(u32, u32)> for PhysicalSize {
    fn from(v: (u32, u32)) -> (r: Self) {
        Self::new(v.0 as u64, v.1 as u64)
    }
}

impl vstd::std_specs::convert::FromSpecImpl<(u32, u32)> for PhysicalSize {
    open spec fn obeys_from_spec() -> bool {
        true
    }

    open spec fn from_spec(v: (u32, u32)) -> Self {
        PhysicalSize { width: v.0 as u64, height: v.1 as u64 }
    }
}

impl From<[u64; 2]> for PhysicalSize {
    fn from(v: [u64; 2]) -> (r: Self) {
        Self::new(v[0], v[1])
    }
}

impl vstd::std_specs::convert::FromSpecImpl<[u64; 2]> for PhysicalSize {
    open spec fn obeys_from_spec() -> bool {
        true
    }

    open spec fn from_spec(v: [u64; 2]) -> Self {
        PhysicalSize { width: v@[0], height: v@[1] }
    }
}

impl From<[u32; 2]> for PhysicalSize {
    fn from(v: [u32; 2]) -> (r: Self) {
        Self::new(v[0] as u64, v[1] as u64)
    }
}

impl vstd::std_specs::convert::FromSpecImpl<[u32; 2]> for PhysicalSize {
    open spec fn obeys_from_spec() -> bool {
        true
    }

    open spec fn from_spec(v: [u32; 2]) -> Self {
        PhysicalSize { width: v@[0] as u64, height: v@[1] as u64 }
    }
}

/// Physical position: a position measured in physical (actual) pixels on the device.
#[derive(Copy, Clone, PartialEq, Eq, Structural, PartialOrd, Ord, Hash, Debug)]
pub struct PhysicalPosition {
    pub x: i64,
    pub y: i64,
}

impl Default for PhysicalPosition {
    /// The origin.
    fn default() -> (r: Self)
        ensures
            r.x == 0 && r.y == 0,
    {
        PhysicalPosition { x: 0, y: 0 }
    }
}

impl PhysicalPosition {
    /// The position at `x`, `y`.
    pub fn new(x: i64, y: i64) -> (r: Self)
        ensures
            r.x == x,
            r.y == y,
    {
        Self { x, y }
    }

    /// Whether both coordinates are zero.
    pub fn is_zero(&self) -> (r: bool)
        ensures
            r == (self.x == 0 && self.y == 0),
    {
        self.x == 0 && self.y == 0
    }

    /// This position moved by `rhs`.
    pub fn add(self, rhs: PhysicalDelta) -> (r: Self)
        requires
            i64::MIN <= self.x + rhs.x <= i64::MAX,
            i64::MIN <= self.y + rhs.y <= i64::MAX,
        ensures
            r.x == self.x + rhs.x,
            r.y == self.y + rhs.y,
    {
        Self::new(self.x + rhs.x, self.y + rhs.y)
    }

    /// Moves this position by `rhs`.
    pub fn add_assign(&mut self, rhs: PhysicalDelta)
        requires
            i64::MIN <= old(self).x + rhs.x <= i64::MAX,
            i64::MIN <= old(self).y + rhs.y <= i64::MAX,
        ensures
            final(self).x == old(self).x + rhs.x,
            final(self).y == old(self).y + rhs.y,
    {
        self.x = self.x + rhs.x;
        self.y = self.y + rhs.y;
    }

    /// The position that the subtraction of the delta `rhs` gives. It adds the delta's coordinates, just as
    /// [`PhysicalPosition::add`] does.
    pub fn sub(self, rhs: PhysicalDelta) -> (r: Self)
        requires
            i64::MIN <= self.x + rhs.x <= i64::MAX,
            i64::MIN <= self.y + rhs.y <= i64::MAX,
        ensures
            r.x == self.x + rhs.x,
            r.y == self.y + rhs.y,
    {
        Self::new(self.x + rhs.x, self.y + rhs.y)
    }

    /// Subtracts the delta `rhs` from this position. It adds the delta's coordinates, just as
    /// [`PhysicalPosition::add_assign`] does.
    pub fn sub_assign(&mut self, rhs: PhysicalDelta)
        requires
            i64::MIN <= old(self).x + rhs.x <= i64::MAX,
            i64::MIN <= old(self).y + rhs.y <= i64::MAX,
        ensures
            final(self).x == old(self).x + rhs.x,
            final(self).y == old(self).y + rhs.y,
    {
        self.x = self.x + rhs.x;
        self.y = self.y + rhs.y;
    }

    /// The delta from `rhs` to this position.
    pub fn sub_position(self, rhs: PhysicalPosition) -> (r: PhysicalDelta)
        requires
            i64::MIN <= self.x - rhs.x <= i64::MAX,
            i64::MIN <= self.y - rhs.y <= i64::MAX,
        ensures
            r.x == self.x - rhs.x,
            r.y == self.y - rhs.y,
    {
        PhysicalDelta::new(self.x - rhs.x, self.y - rhs.y)
    }

    /// The coordinates.
    pub fn to_tuple(self) -> (r: (i64, i64))
        ensures
            r == (self.x, self.y),
    {
        (self.x, self.y)
    }

    /// The coordinates.
    pub fn to_array(self) -> (r: [i64; 2])
        ensures
            r@ == seq![self.x, self.y],
    {
        [self.x, self.y]
    }
}

impl From<(i64, i64)> for PhysicalPosition {
    fn from(v: (i64, i64)) -> (r: Self) {
        Self::new(v.0, v.1)
    }
}

impl vstd::std_specs::convert::FromSpecImpl<(i64, i64)> for PhysicalPosition {
    open spec fn obeys_from_spec() -> bool {
        true
    }

    open spec fn from_spec(v: (i64, i64)) -> Self {
        PhysicalPosition { x: v.0, y: v.1 }
    }
}

impl From<(i32, i32)> for PhysicalPosition {
    fn from(v: (i32, i32)) -> (r: Self) {
        Self::new(v.0 as i64, v.1 as i64)
    }
}

impl vstd::std_specs::convert::FromSpecImpl<(i32, i32)> for PhysicalPosition {
    open spec fn obeys_from_spec() -> bool {
        true
    }

    open spec fn from_spec(v: (i32, i32)) -> Self {
        PhysicalPosition { x: v.0 as i64, y: v.1 as i64 }
    }
}

impl From<[i64; 2]> for PhysicalPosition {
    fn from(v: [i64; 2]) -> (r: Self) {
        Self::new(v[0], v[1])
    }
}

impl vstd::std_specs::convert::FromSpecImpl<[i64; 2]> for PhysicalPosition {
    open spec fn obeys_from_spec() -> bool {
        true
    }

    open spec fn from_spec(v: [i64; 2]) -> Self {
        PhysicalPosition { x: v@[0], y: v@[1] }
    }
}

impl From<[i32; 2]> for PhysicalPosition {
    fn from(v: [i32; 2]) -> (r: Self) {
        Self::new(v[0] as i64, v[1] as i64)
    }
}

impl vstd::std_specs::convert::FromSpecImpl<[i32; 2]> for PhysicalPosition {
    open spec fn obeys_from_spec() -> bool {
        true
    }

    open spec fn from_spec(v: [i32; 2]) -> Self {
        PhysicalPosition { x: v@[0] as i64, y: v@[1] as i64 }
    }
}

/// Physical delta: a difference measured in physical (actual) pixels on the device.
#[derive(Copy, Clone, PartialEq, Eq, Structural, PartialOrd, Ord, Hash, Debug)]
pub struct PhysicalDelta {
    pub x: i64,
    pub y: i64,
}

impl Default for PhysicalDelta {
    /// The zero delta.
    fn default() -> (r: Self)
        ensures
            r.x == 0 && r.y == 0,
    {
        PhysicalDelta { x: 0, y: 0 }
    }
}

impl PhysicalDelta {
    /// The delta of `x`, `y`.
    pub fn new(x: i64, y: i64) -> (r: Self)
        ensures
            r.x == x,
            r.y == y,
    {
        Self { x, y }
    }

    /// Whether both coordinates are zero.
    pub fn is_zero(&self) -> (r: bool)
        ensures
            r == (self.x == 0 && self.y == 0),
    {
        self.x == 0 && self.y == 0
    }

    /// The sum of two deltas.
    pub fn add(self, rhs: PhysicalDelta) -> (r: Self)
        requires
            i64::MIN <= self.x + rhs.x <= i64::MAX,
            i64::MIN <= self.y + rhs.y <= i64::MAX,
        ensures
            r.x == self.x + rhs.x,
            r.y == self.y + rhs.y,
    {
        Self::new(self.x + rhs.x, self.y + rhs.y)
    }

    /// Adds `rhs` to this delta.
    pub fn add_assign(&mut self, rhs: PhysicalDelta)
        requires
            i64::MIN <= old(self).x + rhs.x <= i64::MAX,
            i64::MIN <= old(self).y + rhs.y <= i64::MAX,
        ensures
            final(self).x == old(self).x + rhs.x,
            final(self).y == old(self).y + rhs.y,
    {
        self.x = self.x + rhs.x;
        self.y = self.y + rhs.y;
    }

    /// The coordinates.
    pub fn to_tuple(self) -> (r: (i64, i64))
        ensures
            r == (self.x, self.y),
    {
        (self.x, self.y)
    }

    /// The coordinates.
    pub fn to_array(self) -> (r: [i64; 2])
        ensures
            r@ == seq![self.x, self.y],
    {
        [self.x, self.y]
    }
}

impl From<(i64, i64)> for PhysicalDelta {
    fn from(v: (i64, i64)) -> (r: Self) {
        Self::new(v.0, v.1)
    }
}

impl vstd::std_specs::convert::FromSpecImpl<(i64, i64)> for PhysicalDelta {
    open spec fn obeys_from_spec() -> bool {
        true
    }

    open spec fn from_spec(v: (i64, i64)) -> Self {
        PhysicalDelta { x: v.0, y: v.1 }
    }
}

impl From<(i32, i32)> for PhysicalDelta {
    fn from(v: (i32, i32)) -> (r: Self) {
        Self::new(v.0 as i64, v.1 as i64)
    }
}

impl vstd::std_specs::convert::FromSpecImpl<(i32, i32)> for PhysicalDelta {
    open spec fn obeys_from_spec() -> bool {
        true
    }

    open spec fn from_spec(v: (i32, i32)) -> Self {
        PhysicalDelta { x: v.0 as i64, y: v.1 as i64 }
    }
}

impl From<[i64; 2]> for PhysicalDelta {
    fn from(v: [i64; 2]) -> (r: Self) {
        Self::new(v[0], v[1])
    }
}

impl vstd::std_specs::convert::FromSpecImpl<[i64; 2]> for PhysicalDelta {
    open spec fn obeys_from_spec() -> bool {
        true
    }

    open spec fn from_spec(v: [i64; 2]) -> Self {
        PhysicalDelta { x: v@[0], y: v@[1] }
    }
}

impl From<[i32; 2]> for PhysicalDelta {
    fn from(v: [i32; 2]) -> (r: Self) {
        Self::new(v[0] as i64, v[1] as i64)
    }
}

impl vstd::std_specs::convert::FromSpecImpl<[i32; 2]> for PhysicalDelta {
    open spec fn obeys_from_spec() -> bool {
        true
    }

    open spec fn from_spec(v: [i32; 2]) -> Self {
        PhysicalDelta { x: v@[0] as i64, y: v@[1] as i64 }
    }
}

} // verus!
