//! Command-line commands: what each prints or changes.
use vstd::prelude::*;

use crate::display::Display;

verus! {

/// Options of the `query` command.
#[derive(Debug, Clone, Copy, PartialEq, Eq)]
pub struct QueryCommand {
    /// Print only the displays whose enabled state is this one; all displays when absent.
    pub is_enabled: Option<bool>,
}

/// `d` is printed by a query asking for displays whose enabled state is `is_enabled`.
pub open spec fn shown(is_enabled: Option<bool>, d: Display) -> bool {
    match is_enabled {
        Some(e) => d.logical.state.is_enabled == e,
        None => true,
    }
}

impl QueryCommand {
    /// The queried displays this command prints, in order.
    pub fn displays_to_print(&self, displays: Vec<Display>) -> (r: Vec<Display>)
        ensures
            r@ == displays@.filter(|d: Display| shown(self.is_enabled, d)),
    {
        let mut r: Vec<Display> = Vec::new();
        let n = displays.len();
        for k in 0..n
            invariant
                n == displays@.len(),
                r@ == displays@.take(k as int).filter(|d: Display| shown(self.is_enabled, d)),
        {
            proof {
                assert(displays@.take(k + 1) == displays@.take(k as int).push(displays@[k as int]));
                displays@.take(k as int).lemma_filter_push(
                    displays@[k as int],
                    |d: Display| shown(self.is_enabled, d),
                );
            }
            let keep = match self.is_enabled {
                Some(e) => displays[k].logical.state.is_enabled == e,
                None => true,
            };
            if keep {
                r.push(displays[k].clone());
            }
        }
        assert(displays@.take(n as int) == displays@);
        r
    }
}

} // verus!
