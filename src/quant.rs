use vstd::prelude::*;

verus! {

/// A position or a duration on the rhythmic grid, counted in grid units.
#[derive(Clone, Copy, Debug, PartialEq, Eq, PartialOrd, Ord, Structural)]
pub struct Quant(pub u32);

impl Quant {
    /// The grid count as a mathematical integer.
    pub open spec fn value(self) -> nat {
        self.0 as nat
    }
}

impl core::ops::Add for Quant {
    type Output = Quant;

    fn add(self, other: Quant) -> (r: Quant) {
        Quant(self.0 + other.0)
    }
}

impl vstd::std_specs::ops::AddSpecImpl for Quant {
    open spec fn obeys_add_spec() -> bool {
        true
    }

    open spec fn add_req(self, other: Quant) -> bool {
        self.0 + other.0 <= u32::MAX
    }

    open spec fn add_spec(self, other: Quant) -> Quant {
        Quant((self.0 + other.0) as u32)
    }
}

impl core::ops::Sub for Quant {
    type Output = Quant;

    fn sub(self, other: Quant) -> (r: Quant) {
        Quant(self.0 - other.0)
    }
}

impl vstd::std_specs::ops::SubSpecImpl for Quant {
    open spec fn obeys_sub_spec() -> bool {
        true
    }

    open spec fn sub_req(self, other: Quant) -> bool {
        other.0 <= self.0
    }

    open spec fn sub_spec(self, other: Quant) -> Quant {
        Quant((self.0 - other.0) as u32)
    }
}

impl core::ops::Mul for Quant {
    type Output = Quant;

    fn mul(self, other: Quant) -> (r: Quant) {
        Quant(self.0 * other.0)
    }
}

impl vstd::std_specs::ops::MulSpecImpl for Quant {
    open spec fn obeys_mul_spec() -> bool {
        true
    }

    open spec fn mul_req(self, other: Quant) -> bool {
        self.0 * other.0 <= u32::MAX
    }

    open spec fn mul_spec(self, other: Quant) -> Quant {
        Quant((self.0 * other.0) as u32)
    }
}

impl core::ops::Div for Quant {
    type Output = Quant;

    fn div(self, other: Quant) -> (r: Quant) {
        Quant(self.0 / other.0)
    }
}

impl vstd::std_specs::ops::DivSpecImpl for Quant {
    open spec fn obeys_div_spec() -> bool {
        true
    }

    open spec fn div_req(self, other: Quant) -> bool {
        other.0 != 0
    }

    open spec fn div_spec(self, other: Quant) -> Quant {
        Quant(self.0 / other.0)
    }
}

impl core::ops::Rem for Quant {
    type Output = Quant;

    fn rem(self, other: Quant) -> (r: Quant) {
        Quant(self.0 % other.0)
    }
}

impl vstd::std_specs::ops::RemSpecImpl for Quant {
    open spec fn obeys_rem_spec() -> bool {
        true
    }

    open spec fn rem_req(self, other: Quant) -> bool {
        other.0 != 0
    }

    open spec fn rem_spec(self, other: Quant) -> Quant {
        Quant(self.0 % other.0)
    }
}

} // verus!
