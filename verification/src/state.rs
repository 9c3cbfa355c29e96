//! State-manager axis and its dependency table.

use vstd::prelude::*;

use crate::cli::DependenciesMod;
use crate::cli::Dependency;

verus! {

/// State-manager axis.
#[derive(Clone, Copy, Debug, PartialEq, Eq, Structural)]
pub enum StateManagement {
    Zustand,
    NoState,
}

/// Packages implied by the state-manager choice.
pub open spec fn state_dependencies(s: StateManagement) -> Seq<Dependency> {
    match s {
        StateManagement::Zustand => seq![
            (Dependency { name: "zustand", version: "^4.5.4", mod_type: DependenciesMod::Prod }),
        ],
        StateManagement::NoState => seq![],
    }
}

impl StateManagement {
    pub fn get_dependencies(&self) -> (r: Vec<Dependency>)
        ensures
            r@ == state_dependencies(*self),
    {
        let r = match self {
            StateManagement::Zustand => vec![
                Dependency { name: "zustand", version: "^4.5.4", mod_type: DependenciesMod::Prod },
            ],
            StateManagement::NoState => Vec::new(),
        };
        proof {
            assert(r@ =~= state_dependencies(*self));
        }
        r
    }
}

/// Maps the interactive state-manager selection (`zustand`, skip).
pub fn state_from_index(selection: usize) -> (r: Option<StateManagement>)
    ensures
        r == (if selection == 0 {
            Option::Some(StateManagement::Zustand)
        } else if selection == 1 {
            Option::Some(StateManagement::NoState)
        } else {
            Option::None::<StateManagement>
        }),
{
    if selection == 0 {
        Option::Some(StateManagement::Zustand)
    } else if selection == 1 {
        Option::Some(StateManagement::NoState)
    } else {
        Option::None
    }
}

} // verus!
