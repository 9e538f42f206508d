//! Minimum and maximum cell widths required to render an object.

use vstd::prelude::*;

verus! {

/// Stores the minimum and maximum widths (in cells) required to render an
/// object.
#[derive(Clone, Copy, Debug, Eq, PartialEq, Structural)]
pub struct Measurement {
    /// Minimum number of cells required to render.
    pub minimum: u32,
    /// Maximum number of cells required to render.
    pub maximum: u32,
}

impl Measurement {
    /// Build a measurement from its two bounds.
    pub fn new(minimum: u32, maximum: u32) -> (r: Self)
        ensures
            r.minimum == minimum,
            r.maximum == maximum,
    {
        Self { minimum, maximum }
    }

    /// Get the difference between maximum and minimum.
    pub fn span(&self) -> (r: u32)
        requires
            self.minimum <= self.maximum,
        ensures
            r == self.maximum - self.minimum,
    {
        self.maximum - self.minimum
    }

    /// Get a `Measurement` where minimum is guaranteed to be <= maximum.
    pub fn normalize(&self) -> (r: Self)
        ensures
            r.minimum == if self.minimum <= self.maximum {
                self.minimum
            } else {
                self.maximum
            },
            r.maximum == self.maximum,
            r.minimum <= r.maximum,
    {
        let minimum = if self.minimum <= self.maximum {
            self.minimum
        } else {
            self.maximum
        };
        Self { minimum, maximum: self.maximum }
    }

    /// Get a `Measurement` where both widths are <= `width`.
    pub fn with_maximum(&self, width: u32) -> (r: Self)
        ensures
            r.minimum == if self.minimum <= width {
                self.minimum
            } else {
                width
            },
            r.maximum == if self.maximum <= width {
                self.maximum
            } else {
                width
            },
    {
        Self {
            minimum: if self.minimum <= width {
                self.minimum
            } else {
                width
            },
            maximum: if self.maximum <= width {
                self.maximum
            } else {
                width
            },
        }
    }

    /// Get a `Measurement` where both widths are >= `width`.
    pub fn with_minimum(&self, width: u32) -> (r: Self)
        ensures
            r.minimum == if self.minimum >= width {
                self.minimum
            } else {
                width
            },
            r.maximum == if self.maximum >= width {
                self.maximum
            } else {
                width
            },
    {
        Self {
            minimum: if self.minimum >= width {
                self.minimum
            } else {
                width
            },
            maximum: if self.maximum >= width {
                self.maximum
            } else {
                width
            },
        }
    }

    /// Clamp the measurement within the given optional bounds: raise both
    /// widths to `min_width` (when given), then cap both at `max_width`
    /// (when given).
    pub fn clamp(self, min_width: Option<u32>, max_width: Option<u32>) -> (r: Self)
        ensures
            r == self.clamp_spec(min_width, max_width),
    {
        let mut measurement = self;

        if let Some(min_width) = min_width {
            measurement = measurement.with_minimum(min_width);
        }

        if let Some(max_width) = max_width {
            measurement = measurement.with_maximum(max_width);
        }

        measurement
    }

    /// What `clamp` returns: `with_minimum` applied first, then `with_maximum`,
    /// each only when its bound is present.
    pub open spec fn clamp_spec(self, min_width: Option<u32>, max_width: Option<u32>) -> Self {
        let raised = match min_width {
            Some(w) => Measurement {
                minimum: if self.minimum >= w {
                    self.minimum
                } else {
                    w
                },
                maximum: if self.maximum >= w {
                    self.maximum
                } else {
                    w
                },
            },
            None => self,
        };
        match max_width {
            Some(w) => Measurement {
                minimum: if raised.minimum <= w {
                    raised.minimum
                } else {
                    w
                },
                maximum: if raised.maximum <= w {
                    raised.maximum
                } else {
                    w
                },
            },
            None => raised,
        }
    }
}

} // verus!
