//! Build-tool axis and its dependency table.

use vstd::prelude::*;

use crate::cli::DependenciesMod;
use crate::cli::Dependency;

verus! {

/// Build tool axis.
#[derive(Clone, Copy, Debug, PartialEq, Eq, Structural)]
pub enum PackTool {
    Elza,
    Webpack,
    Vite,
    Rsbuild,
    Farm,
}

/// Packages implied by the build-tool choice.
pub open spec fn pack_tool_dependencies(t: PackTool) -> Seq<Dependency> {
    match t {
        PackTool::Webpack => seq![
            (Dependency {
                name: "webpack-plugin-auto-routes",
                version: "1.1.0",
                mod_type: DependenciesMod::Dev,
            }),
            (Dependency {
                name: "webpack-plugin-better-info",
                version: "^0.0.4",
                mod_type: DependenciesMod::Dev,
            }),
            (Dependency {
                name: "autoprefixer",
                version: "^10.4.19",
                mod_type: DependenciesMod::Dev,
            }),
            (Dependency {
                name: "copy-webpack-plugin",
                version: "^12.0.2",
                mod_type: DependenciesMod::Dev,
            }),
            (Dependency { name: "cross-env", version: "^7.0.3", mod_type: DependenciesMod::Dev }),
            (Dependency { name: "css-loader", version: "6.11.0", mod_type: DependenciesMod::Dev }),
            (Dependency {
                name: "css-minimizer-webpack-plugin",
                version: "^7.0.0",
                mod_type: DependenciesMod::Dev,
            }),
            (Dependency {
                name: "html-webpack-plugin",
                version: "^5.6.0",
                mod_type: DependenciesMod::Dev,
            }),
            (Dependency {
                name: "terser-webpack-plugin",
                version: "^5.3.10",
                mod_type: DependenciesMod::Dev,
            }),
            (Dependency {
                name: "mini-css-extract-plugin",
                version: "^2.9.0",
                mod_type: DependenciesMod::Dev,
            }),
            (Dependency {
                name: "postcss-loader",
                version: "^8.1.1",
                mod_type: DependenciesMod::Dev,
            }),
            (Dependency {
                name: "style-loader",
                version: "^4.0.0",
                mod_type: DependenciesMod::Dev,
            }),
            (Dependency { name: "webpack", version: "^5.91.0", mod_type: DependenciesMod::Dev }),
            (Dependency { name: "webpack-cli", version: "^5.1.4", mod_type: DependenciesMod::Dev }),
            (Dependency {
                name: "webpack-dev-server",
                version: "^5.0.4",
                mod_type: DependenciesMod::Dev,
            }),
            (Dependency {
                name: "webpack-merge",
                version: "^5.10.0",
                mod_type: DependenciesMod::Dev,
            }),
        ],
        PackTool::Vite => seq![
            (Dependency { name: "vite", version: "^5.3.1", mod_type: DependenciesMod::Dev }),
            (Dependency {
                name: "farm-plugin-auto-routes",
                version: "^0.0.5",
                mod_type: DependenciesMod::Dev,
            }),
        ],
        PackTool::Rsbuild => seq![
            (Dependency {
                name: "@rsbuild/core",
                version: "^1.1.8",
                mod_type: DependenciesMod::Dev,
            }),
            (Dependency {
                name: "webpack-plugin-auto-routes",
                version: "1.1.1",
                mod_type: DependenciesMod::Dev,
            }),
        ],
        PackTool::Farm => seq![
            (Dependency { name: "@farmfe/cli", version: "^1.0.2", mod_type: DependenciesMod::Dev }),
            (Dependency {
                name: "@farmfe/core",
                version: "^1.3.0",
                mod_type: DependenciesMod::Dev,
            }),
            (Dependency {
                name: "@farmfe/plugin-react",
                version: "^1.2.0",
                mod_type: DependenciesMod::Dev,
            }),
            (Dependency { name: "core-js", version: "^3.36.1", mod_type: DependenciesMod::Dev }),
            (Dependency {
                name: "react-refresh",
                version: "^0.14.0",
                mod_type: DependenciesMod::Dev,
            }),
            (Dependency {
                name: "farm-plugin-auto-routes",
                version: "^0.0.5",
                mod_type: DependenciesMod::Dev,
            }),
        ],
        PackTool::Elza => seq![
            (Dependency { name: "elza", version: "^0.0.4", mod_type: DependenciesMod::Dev }),
        ],
    }
}

impl PackTool {
    pub fn get_dependencies(&self) -> (r: Vec<Dependency>)
        ensures
            r@ == pack_tool_dependencies(*self),
    {
        let r = match self {
            PackTool::Webpack => vec![
                Dependency {
                    name: "webpack-plugin-auto-routes",
                    version: "1.1.0",
                    mod_type: DependenciesMod::Dev,
                },
                Dependency {
                    name: "webpack-plugin-better-info",
                    version: "^0.0.4",
                    mod_type: DependenciesMod::Dev,
                },
                Dependency {
                    name: "autoprefixer",
                    version: "^10.4.19",
                    mod_type: DependenciesMod::Dev,
                },
                Dependency {
                    name: "copy-webpack-plugin",
                    version: "^12.0.2",
                    mod_type: DependenciesMod::Dev,
                },
                Dependency {
                    name: "cross-env",
                    version: "^7.0.3",
                    mod_type: DependenciesMod::Dev,
                },
                Dependency {
                    name: "css-loader",
                    version: "6.11.0",
                    mod_type: DependenciesMod::Dev,
                },
                Dependency {
                    name: "css-minimizer-webpack-plugin",
                    version: "^7.0.0",
                    mod_type: DependenciesMod::Dev,
                },
                Dependency {
                    name: "html-webpack-plugin",
                    version: "^5.6.0",
                    mod_type: DependenciesMod::Dev,
                },
                Dependency {
                    name: "terser-webpack-plugin",
                    version: "^5.3.10",
                    mod_type: DependenciesMod::Dev,
                },
                Dependency {
                    name: "mini-css-extract-plugin",
                    version: "^2.9.0",
                    mod_type: DependenciesMod::Dev,
                },
                Dependency {
                    name: "postcss-loader",
                    version: "^8.1.1",
                    mod_type: DependenciesMod::Dev,
                },
                Dependency {
                    name: "style-loader",
                    version: "^4.0.0",
                    mod_type: DependenciesMod::Dev,
                },
                Dependency { name: "webpack", version: "^5.91.0", mod_type: DependenciesMod::Dev },
                Dependency {
                    name: "webpack-cli",
                    version: "^5.1.4",
                    mod_type: DependenciesMod::Dev,
                },
                Dependency {
                    name: "webpack-dev-server",
                    version: "^5.0.4",
                    mod_type: DependenciesMod::Dev,
                },
                Dependency {
                    name: "webpack-merge",
                    version: "^5.10.0",
                    mod_type: DependenciesMod::Dev,
                },
            ],
            PackTool::Vite => vec![
                Dependency { name: "vite", version: "^5.3.1", mod_type: DependenciesMod::Dev },
                Dependency {
                    name: "farm-plugin-auto-routes",
                    version: "^0.0.5",
                    mod_type: DependenciesMod::Dev,
                },
            ],
            PackTool::Rsbuild => vec![
                Dependency {
                    name: "@rsbuild/core",
                    version: "^1.1.8",
                    mod_type: DependenciesMod::Dev,
                },
                Dependency {
                    name: "webpack-plugin-auto-routes",
                    version: "1.1.1",
                    mod_type: DependenciesMod::Dev,
                },
            ],
            PackTool::Farm => vec![
                Dependency {
                    name: "@farmfe/cli",
                    version: "^1.0.2",
                    mod_type: DependenciesMod::Dev,
                },
                Dependency {
                    name: "@farmfe/core",
                    version: "^1.3.0",
                    mod_type: DependenciesMod::Dev,
                },
                Dependency {
                    name: "@farmfe/plugin-react",
                    version: "^1.2.0",
                    mod_type: DependenciesMod::Dev,
                },
                Dependency { name: "core-js", version: "^3.36.1", mod_type: DependenciesMod::Dev },
                Dependency {
                    name: "react-refresh",
                    version: "^0.14.0",
                    mod_type: DependenciesMod::Dev,
                },
                Dependency {
                    name: "farm-plugin-auto-routes",
                    version: "^0.0.5",
                    mod_type: DependenciesMod::Dev,
                },
            ],
            PackTool::Elza => vec![
                Dependency { name: "elza", version: "^0.0.4", mod_type: DependenciesMod::Dev },
            ],
        };
        proof {
            assert(r@ =~= pack_tool_dependencies(*self));
        }
        r
    }
}

} // verus!
