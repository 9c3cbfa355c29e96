//! UI-library axis and its dependency table.

use vstd::prelude::*;

use crate::cli::DependenciesMod;
use crate::cli::Dependency;

verus! {

/// UI-library axis.
#[derive(Clone, Copy, Debug, PartialEq, Eq, Structural)]
pub enum UIDesign {
    Antd,
    ElementPlus,
}

/// Packages implied by the UI-library choice.
pub open spec fn ui_dependencies(u: UIDesign) -> Seq<Dependency> {
    match u {
        UIDesign::Antd => seq![
            (Dependency { name: "antd", version: "^5.3.0", mod_type: DependenciesMod::Prod }),
        ],
        UIDesign::ElementPlus => seq![
            (Dependency {
                name: "element-plus",
                version: "^2.7.5",
                mod_type: DependenciesMod::Prod,
            }),
        ],
    }
}

impl UIDesign {
    pub fn get_dependencies(&self) -> (r: Vec<Dependency>)
        ensures
            r@ == ui_dependencies(*self),
    {
        let r = match self {
            UIDesign::Antd => vec![
                Dependency { name: "antd", version: "^5.3.0", mod_type: DependenciesMod::Prod },
            ],
            UIDesign::ElementPlus => vec![
                Dependency {
                    name: "element-plus",
                    version: "^2.7.5",
                    mod_type: DependenciesMod::Prod,
                },
            ],
        };
        proof {
            assert(r@ =~= ui_dependencies(*self));
        }
        r
    }
}

/// Maps the interactive UI-library selection (`antd`, `element-plus`).
pub fn ui_from_index(selection: usize) -> (r: Option<UIDesign>)
    ensures
        r == (if selection == 0 {
            Option::Some(UIDesign::Antd)
        } else if selection == 1 {
            Option::Some(UIDesign::ElementPlus)
        } else {
            Option::None::<UIDesign>
        }),
{
    if selection == 0 {
        Option::Some(UIDesign::Antd)
    } else if selection == 1 {
        Option::Some(UIDesign::ElementPlus)
    } else {
        Option::None
    }
}

} // verus!
