//! Game configuration stub: a configurable stock-refresh limit and draw
//! count exist here but are not yet wired into the game.

use vstd::prelude::*;

verus! {

pub struct Config {
    pub refresh_stock: i8,
    pub draw: u8,
}

impl Config {
    /// The number of stock refreshes allowed, or nothing when unlimited.
    pub fn get_refresh_stock(&self) -> (r: Option<u8>)
        ensures
            self.refresh_stock >= 0 ==> r == Some(self.refresh_stock as u8),
            self.refresh_stock < 0 ==> r is None,
    {
        if self.refresh_stock >= 0 {
            Some(self.refresh_stock as u8)
        } else {
            None
        }
    }
}

} // verus!
