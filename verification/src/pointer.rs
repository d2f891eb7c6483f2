//! This host's pointer, as plain values.
//!
//! Two callers share this: the edge watcher, which reads the pointer to notice
//! it leaving, and the peer listener, which moves it to where a peer says the
//! pointer arrived. The display servers report the desktop differently; here
//! their answers become the same bounds.

use crate::flow;
use crate::fraction;
use vstd::prelude::*;

verus! {

/// Inclusive bounding box of the desktop, in the OS's virtual-screen space.
///
/// The union of every monitor, so the edges tested are the outer edges of the
/// whole desktop rather than of whichever monitor the pointer is on.
#[derive(Debug, Clone, Copy, PartialEq, Eq, Structural)]
pub struct Bounds {
    /// Leftmost x.
    pub min_x: i32,
    /// Topmost y.
    pub min_y: i32,
    /// Rightmost x.
    pub max_x: i32,
    /// Bottommost y.
    pub max_y: i32,
}

/// One pointer observation.
#[derive(Debug, Clone, Copy, PartialEq, Eq, Structural)]
pub struct Sample {
    /// Pointer x, in virtual-screen space.
    pub x: i32,
    /// Pointer y, in virtual-screen space.
    pub y: i32,
    /// The desktop the pointer is on.
    pub bounds: Bounds,
}

/// Why the pointer could not be read or moved.
#[derive(Debug, PartialEq, Eq)]
pub enum PointerError {
    /// No usable display server connection on this host.
    Unavailable(String),
    /// The connection was established but a request failed.
    Request(String),
}

impl Bounds {
    /// The box by its corners: left, top, right, bottom.
    pub open spec fn spec_corners(self) -> (i32, i32, i32, i32) {
        (self.min_x, self.min_y, self.max_x, self.max_y)
    }

    /// Whether the extents of the desktop can be measured in `i32`.
    pub open spec fn spec_is_measurable(self) -> bool {
        flow::measurable(self.spec_corners())
    }

    /// The box by its corners: left, top, right, bottom.
    #[must_use]
    pub fn corners(self) -> (corners: (i32, i32, i32, i32))
        ensures
            corners == self.spec_corners(),
            corners.0 == self.min_x,
            corners.1 == self.min_y,
            corners.2 == self.max_x,
            corners.3 == self.max_y,
    {
        (self.min_x, self.min_y, self.max_x, self.max_y)
    }

    /// Whether the extents of the desktop can be measured in `i32`.
    #[must_use]
    pub fn is_measurable(self) -> (measurable: bool)
        ensures
            measurable == self.spec_is_measurable(),
            measurable <==> {
                &&& -0x8000_0000 <= self.max_x - self.min_x < 0x8000_0000
                &&& -0x8000_0000 <= self.max_y - self.min_y < 0x8000_0000
            },
    {
        let width: i64 = i64::from(self.max_x) - i64::from(self.min_x);
        let height: i64 = i64::from(self.max_y) - i64::from(self.min_y);
        let least: i64 = i64::from(i32::MIN);
        let most: i64 = i64::from(i32::MAX);
        least <= width && width <= most && least <= height && height <= most
    }

    /// The desktop of an X11 root window, whose geometry is the virtual
    /// screen: the union of every monitor.
    #[must_use]
    pub fn of_root_window(width: u16, height: u16) -> (bounds: Self)
        ensures
            bounds == (Bounds {
                min_x: 0,
                min_y: 0,
                max_x: (width - 1) as i32,
                max_y: (height - 1) as i32,
            }),
            bounds.spec_is_measurable(),
    {
        Bounds { min_x: 0, min_y: 0, max_x: width as i32 - 1, max_y: height as i32 - 1 }
    }

    /// The desktop of a virtual screen given by its origin and extent. It
    /// spans every monitor and can start at a negative origin.
    pub fn of_virtual_screen(min_x: i32, min_y: i32, width: i32, height: i32) -> (bounds: Result<
        Self,
        PointerError,
    >)
        ensures
            match bounds {
                Ok(bounds) => {
                    &&& width > 0 && height > 0
                    &&& bounds.min_x == min_x
                    &&& bounds.min_y == min_y
                    &&& bounds.max_x == fraction::saturated(min_x + width) - 1
                    &&& bounds.max_y == fraction::saturated(min_y + height) - 1
                    &&& bounds.spec_is_measurable()
                },
                Err(PointerError::Request(reason)) => {
                    &&& width <= 0 || height <= 0
                    &&& reason@ == "virtual screen has no extent"@
                },
                Err(PointerError::Unavailable(_)) => false,
            },
    {
        if width <= 0 || height <= 0 {
            return Err(PointerError::Request("virtual screen has no extent".to_owned()));
        }
        let past_x: i32 = fraction::saturate(i64::from(min_x) + i64::from(width));
        let past_y: i32 = fraction::saturate(i64::from(min_y) + i64::from(height));
        Ok(Bounds { min_x, min_y, max_x: past_x - 1, max_y: past_y - 1 })
    }
}

/// X11 carries pointer coordinates as `i16`; saturate rather than wrap.
#[must_use]
pub fn narrow(value: i32) -> (narrowed: i16)
    ensures
        narrowed == if value < i16::MIN {
            i16::MIN as int
        } else if value > i16::MAX {
            i16::MAX as int
        } else {
            value as int
        },
{
    if value < i16::MIN as i32 {
        i16::MIN
    } else if value > i16::MAX as i32 {
        i16::MAX
    } else {
        value as i16
    }
}

} // verus!
