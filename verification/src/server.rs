//! The state that the server shares between its clients.

use vstd::prelude::*;

use crate::resources::ResourceTable;

verus! {

#[derive(Debug)]
pub struct ServerState {
    pub resources: ResourceTable,
}

impl ServerState {
    pub fn new() -> (r: Self)
        ensures
            r.resources@ == crate::resources::ResourceTableView::initial(),
    {
        ServerState { resources: ResourceTable::new() }
    }
}

} // verus!
