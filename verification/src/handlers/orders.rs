//! The parameters of the order queries.

use vstd::prelude::*;

verus! {

/// Which orders to list: of one symbol, in one status, a page of them.
#[derive(Clone, Debug)]
pub struct OrderQuery {
    pub symbol: Option<String>,
    pub status: Option<String>,
    pub limit: Option<i64>,
    pub offset: Option<i64>,
}

} // verus!
