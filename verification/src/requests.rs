//! Request shapes of the dashboard's endpoints that carry no logic of
//! their own beyond defaults and checks.

use vstd::prelude::*;

verus! {

/// How many blocks an index refresh fetches from the node.
pub const SAVE_BLOCKS_COUNT: u64 = 500;

/// A request to mine blocks on the regtest node.
pub struct MineParams {
    pub count: u32,
}

impl MineParams {
    /// The number of blocks to mine, or `None` when the request asks for
    /// none (the request is refused: the count must be positive).
    pub fn blocks_to_mine(&self) -> (r: Option<u64>)
        ensures
            self.count == 0 ==> r is None,
            self.count > 0 ==> r == Some(self.count as u64),
    {
        if self.count == 0 {
            None
        } else {
            Some(self.count as u64)
        }
    }
}

/// The query of the peer table.
pub struct PeersParams {
    pub draw: i32,
    pub start: Option<i32>,
    pub length: Option<i32>,
}

/// A time range of mempool snapshots in Unix seconds.
pub struct MempoolTimeRange {
    pub from: i64,
    pub to: i64,
}

} // verus!
