use vstd::prelude::*;

verus! {

/// The two kinds of adjustment table a balance-of-performance set is
/// rendered to and read from.
#[derive(Clone, Copy)]
pub enum BopType {
    Ballast,
    Restrictor,
}

impl BopType {
    pub fn to_string(&self) -> (r: String)
        ensures
            r@ == self.label(),
    {
        match self {
            BopType::Ballast => String::from_str("Ballast"),
            BopType::Restrictor => String::from_str("Restrictor"),
        }
    }

    pub open spec fn label(&self) -> Seq<char> {
        match self {
            BopType::Ballast => "Ballast"@,
            BopType::Restrictor => "Restrictor"@,
        }
    }
}

} // verus!

pub mod catalog;
pub mod combine;
pub mod chars;
pub mod data;
pub mod decode;
pub mod encode;
pub mod laws;
pub mod normalize;
pub mod numbers;
pub mod resolve;
pub mod roundtrip;
pub mod tracklaws;
