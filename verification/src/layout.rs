//! Positions and sizes on the 1000 x 1000 logical canvas that themes use,
//! and their pixel counterparts on a physical display.
//!
//! Logical coordinates are single-precision numbers; the library carries
//! them as their IEEE-754 bit patterns, so a theme keeps every value
//! exactly as it was written.
use vstd::prelude::*;

verus! {

/// A point on the logical canvas (coordinates as bit patterns).
#[derive(Debug, Clone, Copy, PartialEq, Eq, Structural)]
pub struct LogicalPosition {
    pub x_bits: u32,
    pub y_bits: u32,
}

impl LogicalPosition {
    pub fn new(x_bits: u32, y_bits: u32) -> (position: LogicalPosition)
        ensures
            position.x_bits == x_bits,
            position.y_bits == y_bits,
    {
        LogicalPosition { x_bits, y_bits }
    }
}

/// An extent on the logical canvas (lengths as bit patterns).
#[derive(Debug, Clone, Copy, PartialEq, Eq, Structural)]
pub struct LogicalSize {
    pub width_bits: u32,
    pub height_bits: u32,
}

impl LogicalSize {
    pub fn new(width_bits: u32, height_bits: u32) -> (size: LogicalSize)
        ensures
            size.width_bits == width_bits,
            size.height_bits == height_bits,
    {
        LogicalSize { width_bits, height_bits }
    }
}

/// A rectangle on the logical canvas.
#[derive(Debug, Clone, Copy, PartialEq, Eq, Structural)]
pub struct LogicalRect {
    pub position: LogicalPosition,
    pub size: LogicalSize,
}

impl LogicalRect {
    pub fn new(x_bits: u32, y_bits: u32, width_bits: u32, height_bits: u32) -> (rect:
        LogicalRect)
        ensures
            rect.position == (LogicalPosition { x_bits, y_bits }),
            rect.size == (LogicalSize { width_bits, height_bits }),
    {
        LogicalRect {
            position: LogicalPosition::new(x_bits, y_bits),
            size: LogicalSize::new(width_bits, height_bits),
        }
    }
}

/// A point on a physical display.
#[derive(Debug, Clone, Copy, PartialEq, Eq, Structural)]
pub struct PixelPosition {
    pub x: u32,
    pub y: u32,
}

/// An extent on a physical display.
#[derive(Debug, Clone, Copy, PartialEq, Eq, Structural)]
pub struct PixelSize {
    pub width: u32,
    pub height: u32,
}

/// A rectangle on a physical display.
#[derive(Debug, Clone, Copy, PartialEq, Eq, Structural)]
pub struct PixelRect {
    pub position: PixelPosition,
    pub size: PixelSize,
}

} // verus!
