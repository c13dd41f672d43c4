//! A school found by the menu host's search.

use crate::dish::MASHIE_HOST;
use vstd::prelude::*;

verus! {

/// One hit of the school search: the school's id, its name, and the path of
/// its menu page on the menu host.
#[derive(Clone, Debug)]
pub struct SearchResult {
    pub id: String,
    pub title: String,
    pub path: String,
}

impl SearchResult {
    /// The address of the school's menu page.
    pub fn url(&self) -> (r: String)
        ensures
            r@ == MASHIE_HOST@ + self.path@,
    {
        let mut url = String::from_str(MASHIE_HOST);
        url.append(self.path.as_str());
        url
    }
}

} // verus!
