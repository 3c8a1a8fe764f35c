use vstd::prelude::*;

verus! {

/// Two colours in alternating unit-wide stripes along the x axis.
///
/// Stripe `k` holds the points whose x coordinate rounds down to `k`: even
/// stripes, negative ones included, take the first colour, odd stripes the
/// second.
#[derive(Clone, Copy, Debug, PartialEq)]
pub struct StripePattern<C> {
    pub color1: C,
    pub color2: C,
}

impl<C: Copy> StripePattern<C> {
    /// A pattern of `color1` on even stripes and `color2` on odd ones.
    pub fn new(color1: C, color2: C) -> (r: Self)
        ensures
            r.color1 == color1,
            r.color2 == color2,
    {
        StripePattern { color1, color2 }
    }

    /// The colour of stripe `stripe`.
    pub fn color_at_stripe(&self, stripe: isize) -> (r: C)
        ensures
            r == (if stripe % 2 == 0 {
                self.color1
            } else {
                self.color2
            }),
    {
        if stripe % 2 == 0 {
            self.color1
        } else {
            self.color2
        }
    }
}

} // verus!
