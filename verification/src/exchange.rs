use vstd::prelude::*;

verus! {

/// The venues whose feeds can be merged.
#[derive(Clone, Copy, Debug, PartialEq, Eq, Structural)]
pub enum Exchange {
    Binance,
    Bitstamp,
}

impl Exchange {
    pub open spec fn label(self) -> Seq<char> {
        match self {
            Exchange::Binance => "Binance"@,
            Exchange::Bitstamp => "Bitstamp"@,
        }
    }

    /// The label under which the venue is shown to subscribers.
    pub fn name(&self) -> (r: String)
        ensures
            r@ == self.label(),
    {
        match self {
            Exchange::Binance => "Binance".to_owned(),
            Exchange::Bitstamp => "Bitstamp".to_owned(),
        }
    }
}

} // verus!
