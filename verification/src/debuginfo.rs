//! Where in the input an element was found.

use vstd::prelude::*;
use crate::feeder::Feeder;
use crate::text::decimal;
use crate::text::u64_to_string;

verus! {

#[derive(Debug)]
pub struct DebugInfo {
    /// How many characters of the input stood before the element.
    pub pos: usize,
    /// How many characters of the input were in view when it was found.
    pub limit: usize,
}

impl DebugInfo {
    /// The place at which the feeder stands.
    pub fn init(feeder: &Feeder) -> (d: DebugInfo)
        ensures
            d.pos == feeder.pos,
            d.limit == feeder.limit,
    {
        DebugInfo { pos: feeder.pos, limit: feeder.limit }
    }

    /// The place as it is shown.
    pub open spec fn shown(&self) -> Seq<char> {
        "pos: "@ + decimal(self.pos as int) + ", limit: "@ + decimal(self.limit as int)
    }

    /// Writes the place for a message.
    pub fn text(&self) -> (t: String)
        ensures
            t@ == self.shown(),
    {
        let mut t = String::from_str("pos: ");
        t.append(u64_to_string(self.pos as u64).as_str());
        t.append(", limit: ");
        t.append(u64_to_string(self.limit as u64).as_str());
        t
    }
}

} // verus!
