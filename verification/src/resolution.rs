//! Validated logical framebuffer dimensions shared by compilation and presentation.
use vstd::prelude::*;

use crate::text::{decimal, push_decimal, push_str};

verus! {

/// Largest accepted width or height.
pub const MAX_DIMENSION: u16 = 4096;

/// Whether a dimension lies within the portable framebuffer limits.
pub open spec fn dimension_fits(dimension: u16) -> bool {
    1 <= dimension <= MAX_DIMENSION
}

/// The message for a dimension outside the limits.
pub open spec fn dimension_message(name: Seq<char>, dimension: u16) -> Seq<char> {
    "resolution "@ + name + " must be between 1 and "@ + decimal(MAX_DIMENSION as nat) + ", found "@
        + decimal(dimension as nat)
}

/// Logical dimensions whose construction enforces the portable framebuffer limits.
#[derive(Clone, Copy, Debug, PartialEq, Eq, Structural)]
pub struct Resolution {
    width: u16,
    height: u16,
}

impl View for Resolution {
    type V = (u16, u16);

    closed spec fn view(&self) -> (u16, u16) {
        (self.width, self.height)
    }
}

impl Resolution {
    #[verifier::type_invariant]
    closed spec fn within_limits(self) -> bool {
        dimension_fits(self.width) && dimension_fits(self.height)
    }

    /// Accepts dimensions between 1 and [`MAX_DIMENSION`]; the width is checked first.
    pub fn new(width: u16, height: u16) -> (resolution: Result<Resolution, String>)
        ensures
            match resolution {
                Ok(r) => dimension_fits(width) && dimension_fits(height) && r@ == (width, height),
                Err(message) => if !dimension_fits(width) {
                    message@ == dimension_message("width"@, width)
                } else {
                    !dimension_fits(height) && message@ == dimension_message("height"@, height)
                },
            },
    {
        if !(1 <= width && width <= MAX_DIMENSION) {
            return Err(Self::out_of_range("width", width));
        }
        if !(1 <= height && height <= MAX_DIMENSION) {
            return Err(Self::out_of_range("height", height));
        }
        Ok(Resolution { width, height })
    }

    fn out_of_range(name: &str, dimension: u16) -> (message: String)
        ensures
            message@ == dimension_message(name@, dimension),
    {
        let mut message = String::new();
        push_str(&mut message, "resolution ");
        push_str(&mut message, name);
        push_str(&mut message, " must be between 1 and ");
        push_decimal(&mut message, MAX_DIMENSION as u64);
        push_str(&mut message, ", found ");
        push_decimal(&mut message, dimension as u64);
        proof {
            reveal_strlit("resolution ");
            reveal_strlit(" must be between 1 and ");
            reveal_strlit(", found ");
        }
        message
    }

    pub fn width(self) -> (width: u16)
        ensures
            width == self@.0,
            dimension_fits(width),
    {
        proof {
            use_type_invariant(&self);
        }
        self.width
    }

    pub fn height(self) -> (height: u16)
        ensures
            height == self@.1,
            dimension_fits(height),
    {
        proof {
            use_type_invariant(&self);
        }
        self.height
    }

    /// Byte length of a tightly packed RGB8 framebuffer.
    pub fn payload_bytes(self) -> (bytes: usize)
        ensures
            bytes == self@.0 * self@.1 * 3,
    {
        proof {
            use_type_invariant(&self);
            assert(self.width as int * self.height as int <= 4096 * 4096) by (nonlinear_arith)
                requires
                    self.width <= 4096,
                    self.height <= 4096,
            ;
        }
        (self.width as usize) * (self.height as usize) * 3
    }
}

/// The dimensions a game gets when it names none: 320 by 180.
impl Default for Resolution {
    fn default() -> (resolution: Resolution)
        ensures
            resolution@ == (320u16, 180u16),
    {
        Resolution { width: 320, height: 180 }
    }
}

} // verus!
