//! Combined (build tool, framework, language) axis used by one command
//! variant, with its dependency table.

use vstd::prelude::*;

use crate::cli::DependenciesMod;
use crate::cli::Dependency;

verus! {

/// A resolved (build tool, framework, language) combination.
#[derive(Clone, Copy, Debug, PartialEq, Eq, Structural)]
pub enum ComprehensiveType {
    WebpackReactJs,
    WebpackReactTs,
    ViteReactJs,
    ViteReactTs,
}

/// Packages implied by the combined choice.
pub open spec fn comprehensive_dependencies(t: ComprehensiveType) -> Seq<Dependency> {
    match t {
        ComprehensiveType::WebpackReactJs => seq![],
        ComprehensiveType::WebpackReactTs => seq![
            (Dependency {
                name: "@babel/preset-typescript",
                version: "^7.24.1",
                mod_type: DependenciesMod::Dev,
            }),
            (Dependency {
                name: "@types/node",
                version: "^20.12.12",
                mod_type: DependenciesMod::Dev,
            }),
            (Dependency {
                name: "@types/react",
                version: "^18.3.2",
                mod_type: DependenciesMod::Dev,
            }),
            (Dependency {
                name: "@types/react-dom",
                version: "^18.3.0",
                mod_type: DependenciesMod::Dev,
            }),
            (Dependency {
                name: "@types/webpack",
                version: "^5.28.5",
                mod_type: DependenciesMod::Dev,
            }),
        ],
        ComprehensiveType::ViteReactJs => seq![
            (Dependency {
                name: "@vitejs/plugin-react",
                version: "^4.3.1",
                mod_type: DependenciesMod::Dev,
            }),
        ],
        ComprehensiveType::ViteReactTs => seq![
            (Dependency {
                name: "@types/react",
                version: "^18.3.2",
                mod_type: DependenciesMod::Dev,
            }),
            (Dependency {
                name: "@types/react-dom",
                version: "^18.3.0",
                mod_type: DependenciesMod::Dev,
            }),
            (Dependency {
                name: "@vitejs/plugin-react",
                version: "^4.3.1",
                mod_type: DependenciesMod::Dev,
            }),
        ],
    }
}

impl ComprehensiveType {
    pub fn get_dependencies(&self) -> (r: Vec<Dependency>)
        ensures
            r@ == comprehensive_dependencies(*self),
    {
        let r = match self {
            ComprehensiveType::WebpackReactJs => Vec::new(),
            ComprehensiveType::WebpackReactTs => vec![
                Dependency {
                    name: "@babel/preset-typescript",
                    version: "^7.24.1",
                    mod_type: DependenciesMod::Dev,
                },
                Dependency {
                    name: "@types/node",
                    version: "^20.12.12",
                    mod_type: DependenciesMod::Dev,
                },
                Dependency {
                    name: "@types/react",
                    version: "^18.3.2",
                    mod_type: DependenciesMod::Dev,
                },
                Dependency {
                    name: "@types/react-dom",
                    version: "^18.3.0",
                    mod_type: DependenciesMod::Dev,
                },
                Dependency {
                    name: "@types/webpack",
                    version: "^5.28.5",
                    mod_type: DependenciesMod::Dev,
                },
            ],
            ComprehensiveType::ViteReactJs => vec![
                Dependency {
                    name: "@vitejs/plugin-react",
                    version: "^4.3.1",
                    mod_type: DependenciesMod::Dev,
                },
            ],
            ComprehensiveType::ViteReactTs => vec![
                Dependency {
                    name: "@types/react",
                    version: "^18.3.2",
                    mod_type: DependenciesMod::Dev,
                },
                Dependency {
                    name: "@types/react-dom",
                    version: "^18.3.0",
                    mod_type: DependenciesMod::Dev,
                },
                Dependency {
                    name: "@vitejs/plugin-react",
                    version: "^4.3.1",
                    mod_type: DependenciesMod::Dev,
                },
            ],
        };
        proof {
            assert(r@ =~= comprehensive_dependencies(*self));
        }
        r
    }
}

} // verus!
