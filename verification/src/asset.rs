use vstd::prelude::*;

verus! {

/// The currencies a pair can be made of. Not every venue trades every pair.
#[derive(Clone, Copy, Debug, PartialEq, Eq, Structural)]
pub enum Asset {
    Btc,
    Eth,
}

impl Asset {
    pub open spec fn symbol_text(self) -> Seq<char> {
        match self {
            Asset::Btc => "btc"@,
            Asset::Eth => "eth"@,
        }
    }

    /// The lower-case symbol that the venues use in channel names.
    pub fn symbol(&self) -> (r: String)
        ensures
            r@ == self.symbol_text(),
    {
        match self {
            Asset::Btc => "btc".to_owned(),
            Asset::Eth => "eth".to_owned(),
        }
    }
}

} // verus!
