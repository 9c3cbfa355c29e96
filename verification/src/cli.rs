//! Configuration axes and their dependency tables.
//!
//! Each option axis is a small closed enumeration; selecting a value implies
//! a fixed list of npm packages to add to the generated manifest.  The
//! tables are stated once as specification functions and the executable
//! getters are proved to return exactly them.

use vstd::prelude::*;

use crate::pack::PackTool;

verus! {

/// Whether a package lands in `dependencies` or `devDependencies`.
#[derive(Copy, Clone, Debug, PartialEq, Eq, Structural)]
pub enum DependenciesMod {
    Dev,
    Prod,
}

/// One npm package to add: name, version requirement, and section.
#[derive(Copy, Clone, Debug)]
pub struct Dependency {
    pub name: &'static str,
    pub version: &'static str,
    pub mod_type: DependenciesMod,
}

/// Front-end framework axis.
#[derive(Clone, Copy, Debug, PartialEq, Eq, Structural)]
pub enum FrameWork {
    React,
}

/// Language axis.
#[derive(Clone, Copy, Debug, PartialEq, Eq, Structural)]
pub enum CodeLanguage {
    Js,
    Ts,
}

/// JavaScript loader axis; only meaningful for the webpack build tool.
#[derive(Clone, Copy, Debug, PartialEq, Eq, Structural)]
pub enum JsLoader {
    Babel,
    Swc,
    NoLoader,
}

/// CSS preprocessor axis.
#[derive(Clone, Copy, Debug, PartialEq, Eq, Structural)]
pub enum CssPreset {
    Sass,
    Less,
    NoPreset,
}

/// Packages implied by the framework choice.
pub open spec fn framework_dependencies(f: FrameWork) -> Seq<Dependency> {
    match f {
        FrameWork::React => seq![
            (Dependency { name: "axios", version: "^1.7.9", mod_type: DependenciesMod::Prod }),
            (Dependency { name: "react", version: "^18.2.0", mod_type: DependenciesMod::Prod }),
            (Dependency { name: "react-dom", version: "^18.2.0", mod_type: DependenciesMod::Prod }),
            (Dependency {
                name: "react-router-dom",
                version: "^6.23.1",
                mod_type: DependenciesMod::Prod,
            }),
        ],
    }
}

impl FrameWork {
    pub fn get_dependencies(&self) -> (r: Vec<Dependency>)
        ensures
            r@ == framework_dependencies(*self),
    {
        let r = match self {
            FrameWork::React => vec![
                Dependency { name: "axios", version: "^1.7.9", mod_type: DependenciesMod::Prod },
                Dependency { name: "react", version: "^18.2.0", mod_type: DependenciesMod::Prod },
                Dependency {
                    name: "react-dom",
                    version: "^18.2.0",
                    mod_type: DependenciesMod::Prod,
                },
                Dependency {
                    name: "react-router-dom",
                    version: "^6.23.1",
                    mod_type: DependenciesMod::Prod,
                },
            ],
        };
        proof {
            assert(r@ =~= framework_dependencies(*self));
        }
        r
    }
}

/// The `@types` packages every TypeScript project receives.
pub open spec fn ts_common_dependencies() -> Seq<Dependency> {
    seq![
        (Dependency { name: "@types/react", version: "^18.3.2", mod_type: DependenciesMod::Dev }),
        (Dependency {
            name: "@types/react-dom",
            version: "^18.3.0",
            mod_type: DependenciesMod::Dev,
        }),
    ]
}

/// Packages implied by the language choice, in the context of the resolved
/// build tool and framework.
pub open spec fn language_dependencies(
    lang: CodeLanguage,
    build_tool: PackTool,
    frame: FrameWork,
) -> Seq<Dependency> {
    let base: Seq<Dependency> = match (lang, build_tool, frame) {
        (CodeLanguage::Js, PackTool::Webpack, FrameWork::React) => seq![],
        (CodeLanguage::Ts, PackTool::Webpack, FrameWork::React) => seq![
            (Dependency {
                name: "@babel/preset-typescript",
                version: "^7.24.1",
                mod_type: DependenciesMod::Dev,
            }),
            (Dependency {
                name: "@types/node",
                version: "^20.12.12",
                mod_type: DependenciesMod::Dev,
            }),
            (Dependency {
                name: "@types/webpack",
                version: "^5.28.5",
                mod_type: DependenciesMod::Dev,
            }),
            (Dependency { name: "ts-node", version: "^10.9.2", mod_type: DependenciesMod::Dev }),
            (Dependency { name: "typescript", version: "^5.5.2", mod_type: DependenciesMod::Dev }),
        ],
        (CodeLanguage::Js, PackTool::Vite, FrameWork::React) => seq![
            (Dependency {
                name: "@vitejs/plugin-react-swc",
                version: "^3.5.0",
                mod_type: DependenciesMod::Dev,
            }),
        ],
        (CodeLanguage::Ts, PackTool::Vite, FrameWork::React) => seq![
            (Dependency {
                name: "@vitejs/plugin-react-swc",
                version: "^3.5.0",
                mod_type: DependenciesMod::Dev,
            }),
            (Dependency { name: "typescript", version: "^5.5.2", mod_type: DependenciesMod::Dev }),
        ],
        (CodeLanguage::Js, PackTool::Rsbuild, FrameWork::React) => seq![
            (Dependency {
                name: "@rsbuild/plugin-react",
                version: "^1.0.7",
                mod_type: DependenciesMod::Dev,
            }),
        ],
        (CodeLanguage::Ts, PackTool::Rsbuild, FrameWork::React) => seq![
            (Dependency {
                name: "@rsbuild/plugin-react",
                version: "^1.0.7",
                mod_type: DependenciesMod::Dev,
            }),
            (Dependency { name: "typescript", version: "^5.5.2", mod_type: DependenciesMod::Dev }),
        ],
        (_, PackTool::Farm, FrameWork::React) => seq![
            (Dependency {
                name: "@farmfe/plugin-react",
                version: "^1.2.0",
                mod_type: DependenciesMod::Dev,
            }),
        ],
        (_, PackTool::Elza, FrameWork::React) => seq![],
    };
    if lang is Ts {
        base + ts_common_dependencies()
    } else {
        base
    }
}

impl CodeLanguage {
    pub fn get_dependencies(&self, build_tool: PackTool, frame: FrameWork) -> (r: Vec<Dependency>)
        ensures
            r@ == language_dependencies(*self, build_tool, frame),
    {
        let mut r: Vec<Dependency> = match (self, build_tool, frame) {
            (CodeLanguage::Js, PackTool::Webpack, FrameWork::React) => Vec::new(),
            (CodeLanguage::Ts, PackTool::Webpack, FrameWork::React) => vec![
                Dependency {
                    name: "@babel/preset-typescript",
                    version: "^7.24.1",
                    mod_type: DependenciesMod::Dev,
                },
                Dependency {
                    name: "@types/node",
                    version: "^20.12.12",
                    mod_type: DependenciesMod::Dev,
                },
                Dependency {
                    name: "@types/webpack",
                    version: "^5.28.5",
                    mod_type: DependenciesMod::Dev,
                },
                Dependency { name: "ts-node", version: "^10.9.2", mod_type: DependenciesMod::Dev },
                Dependency {
                    name: "typescript",
                    version: "^5.5.2",
                    mod_type: DependenciesMod::Dev,
                },
            ],
            (CodeLanguage::Js, PackTool::Vite, FrameWork::React) => vec![
                Dependency {
                    name: "@vitejs/plugin-react-swc",
                    version: "^3.5.0",
                    mod_type: DependenciesMod::Dev,
                },
            ],
            (CodeLanguage::Ts, PackTool::Vite, FrameWork::React) => vec![
                Dependency {
                    name: "@vitejs/plugin-react-swc",
                    version: "^3.5.0",
                    mod_type: DependenciesMod::Dev,
                },
                Dependency {
                    name: "typescript",
                    version: "^5.5.2",
                    mod_type: DependenciesMod::Dev,
                },
            ],
            (CodeLanguage::Js, PackTool::Rsbuild, FrameWork::React) => vec![
                Dependency {
                    name: "@rsbuild/plugin-react",
                    version: "^1.0.7",
                    mod_type: DependenciesMod::Dev,
                },
            ],
            (CodeLanguage::Ts, PackTool::Rsbuild, FrameWork::React) => vec![
                Dependency {
                    name: "@rsbuild/plugin-react",
                    version: "^1.0.7",
                    mod_type: DependenciesMod::Dev,
                },
                Dependency {
                    name: "typescript",
                    version: "^5.5.2",
                    mod_type: DependenciesMod::Dev,
                },
            ],
            (_, PackTool::Farm, FrameWork::React) => vec![
                Dependency {
                    name: "@farmfe/plugin-react",
                    version: "^1.2.0",
                    mod_type: DependenciesMod::Dev,
                },
            ],
            (_, PackTool::Elza, FrameWork::React) => Vec::new(),
        };
        if let CodeLanguage::Ts = self {
            r.push(Dependency {
                name: "@types/react",
                version: "^18.3.2",
                mod_type: DependenciesMod::Dev,
            });
            r.push(Dependency {
                name: "@types/react-dom",
                version: "^18.3.0",
                mod_type: DependenciesMod::Dev,
            });
        }
        proof {
            assert(r@ =~= language_dependencies(*self, build_tool, frame));
        }
        r
    }
}

/// Packages implied by the loader choice.
pub open spec fn loader_dependencies(l: JsLoader) -> Seq<Dependency> {
    match l {
        JsLoader::Babel => seq![
            (Dependency {
                name: "@babel/core",
                version: "^7.24.5",
                mod_type: DependenciesMod::Dev,
            }),
            (Dependency {
                name: "@babel/plugin-transform-runtime",
                version: "^7.24.7",
                mod_type: DependenciesMod::Dev,
            }),
            (Dependency {
                name: "@babel/preset-env",
                version: "^7.24.5",
                mod_type: DependenciesMod::Dev,
            }),
            (Dependency {
                name: "@babel/preset-react",
                version: "^7.24.1",
                mod_type: DependenciesMod::Dev,
            }),
            (Dependency {
                name: "@babel/runtime",
                version: "^7.24.7",
                mod_type: DependenciesMod::Prod,
            }),
            (Dependency {
                name: "babel-loader",
                version: "^9.1.3",
                mod_type: DependenciesMod::Dev,
            }),
            (Dependency {
                name: "babel-plugin-auto-css-module",
                version: "1.0.0",
                mod_type: DependenciesMod::Dev,
            }),
        ],
        JsLoader::Swc => seq![
            (Dependency { name: "@swc/core", version: "1.6.6", mod_type: DependenciesMod::Dev }),
            (Dependency { name: "swc-loader", version: "0.2.6", mod_type: DependenciesMod::Dev }),
            (Dependency {
                name: "swc-plugin-auto-css-module",
                version: "0.0.9",
                mod_type: DependenciesMod::Dev,
            }),
        ],
        JsLoader::NoLoader => seq![],
    }
}

impl JsLoader {
    pub fn get_dependencies(&self) -> (r: Vec<Dependency>)
        ensures
            r@ == loader_dependencies(*self),
    {
        let r = match self {
            JsLoader::Babel => vec![
                Dependency {
                    name: "@babel/core",
                    version: "^7.24.5",
                    mod_type: DependenciesMod::Dev,
                },
                Dependency {
                    name: "@babel/plugin-transform-runtime",
                    version: "^7.24.7",
                    mod_type: DependenciesMod::Dev,
                },
                Dependency {
                    name: "@babel/preset-env",
                    version: "^7.24.5",
                    mod_type: DependenciesMod::Dev,
                },
                Dependency {
                    name: "@babel/preset-react",
                    version: "^7.24.1",
                    mod_type: DependenciesMod::Dev,
                },
                Dependency {
                    name: "@babel/runtime",
                    version: "^7.24.7",
                    mod_type: DependenciesMod::Prod,
                },
                Dependency {
                    name: "babel-loader",
                    version: "^9.1.3",
                    mod_type: DependenciesMod::Dev,
                },
                Dependency {
                    name: "babel-plugin-auto-css-module",
                    version: "1.0.0",
                    mod_type: DependenciesMod::Dev,
                },
            ],
            JsLoader::Swc => vec![
                Dependency { name: "@swc/core", version: "1.6.6", mod_type: DependenciesMod::Dev },
                Dependency { name: "swc-loader", version: "0.2.6", mod_type: DependenciesMod::Dev },
                Dependency {
                    name: "swc-plugin-auto-css-module",
                    version: "0.0.9",
                    mod_type: DependenciesMod::Dev,
                },
            ],
            JsLoader::NoLoader => Vec::new(),
        };
        proof {
            assert(r@ =~= loader_dependencies(*self));
        }
        r
    }
}

/// Packages implied by the CSS preprocessor choice, per build tool.
pub open spec fn css_dependencies(c: CssPreset, build_tool: PackTool) -> Seq<Dependency> {
    match (c, build_tool) {
        (CssPreset::Sass, PackTool::Webpack) => seq![
            (Dependency { name: "sass", version: "^1.77.6", mod_type: DependenciesMod::Dev }),
            (Dependency {
                name: "sass-loader",
                version: "^14.2.1",
                mod_type: DependenciesMod::Dev,
            }),
        ],
        (CssPreset::Less, PackTool::Webpack) => seq![
            (Dependency { name: "less", version: "^4.1.3", mod_type: DependenciesMod::Dev }),
            (Dependency {
                name: "less-loader",
                version: "^11.1.0",
                mod_type: DependenciesMod::Dev,
            }),
        ],
        (CssPreset::Sass, PackTool::Vite) => seq![
            (Dependency { name: "sass", version: "^1.77.6", mod_type: DependenciesMod::Dev }),
        ],
        (CssPreset::Less, PackTool::Vite) => seq![
            (Dependency { name: "less", version: "^4.1.3", mod_type: DependenciesMod::Dev }),
        ],
        (CssPreset::Sass, PackTool::Rsbuild) => seq![
            (Dependency {
                name: "@rsbuild/plugin-sass",
                version: "^1.1.1",
                mod_type: DependenciesMod::Dev,
            }),
        ],
        (CssPreset::Less, PackTool::Rsbuild) => seq![
            (Dependency {
                name: "@rsbuild/plugin-less",
                version: "^1.1.0",
                mod_type: DependenciesMod::Dev,
            }),
        ],
        (CssPreset::Sass, PackTool::Farm) => seq![
            (Dependency {
                name: "@farmfe/plugin-sass",
                version: "^1.1.0",
                mod_type: DependenciesMod::Dev,
            }),
        ],
        (CssPreset::Less, PackTool::Farm) => seq![
            (Dependency {
                name: "@farmfe/js-plugin-less",
                version: "^1.11.0",
                mod_type: DependenciesMod::Dev,
            }),
        ],
        (_, _) => seq![],
    }
}

impl CssPreset {
    pub fn get_dependencies(&self, build_tool: PackTool) -> (r: Vec<Dependency>)
        ensures
            r@ == css_dependencies(*self, build_tool),
    {
        let r = match (self, build_tool) {
            (CssPreset::Sass, PackTool::Webpack) => vec![
                Dependency { name: "sass", version: "^1.77.6", mod_type: DependenciesMod::Dev },
                Dependency {
                    name: "sass-loader",
                    version: "^14.2.1",
                    mod_type: DependenciesMod::Dev,
                },
            ],
            (CssPreset::Less, PackTool::Webpack) => vec![
                Dependency { name: "less", version: "^4.1.3", mod_type: DependenciesMod::Dev },
                Dependency {
                    name: "less-loader",
                    version: "^11.1.0",
                    mod_type: DependenciesMod::Dev,
                },
            ],
            (CssPreset::Sass, PackTool::Vite) => vec![
                Dependency { name: "sass", version: "^1.77.6", mod_type: DependenciesMod::Dev },
            ],
            (CssPreset::Less, PackTool::Vite) => vec![
                Dependency { name: "less", version: "^4.1.3", mod_type: DependenciesMod::Dev },
            ],
            (CssPreset::Sass, PackTool::Rsbuild) => vec![
                Dependency {
                    name: "@rsbuild/plugin-sass",
                    version: "^1.1.1",
                    mod_type: DependenciesMod::Dev,
                },
            ],
            (CssPreset::Less, PackTool::Rsbuild) => vec![
                Dependency {
                    name: "@rsbuild/plugin-less",
                    version: "^1.1.0",
                    mod_type: DependenciesMod::Dev,
                },
            ],
            (CssPreset::Sass, PackTool::Farm) => vec![
                Dependency {
                    name: "@farmfe/plugin-sass",
                    version: "^1.1.0",
                    mod_type: DependenciesMod::Dev,
                },
            ],
            (CssPreset::Less, PackTool::Farm) => vec![
                Dependency {
                    name: "@farmfe/js-plugin-less",
                    version: "^1.11.0",
                    mod_type: DependenciesMod::Dev,
                },
            ],
            (_, _) => Vec::new(),
        };
        proof {
            assert(r@ =~= css_dependencies(*self, build_tool));
        }
        r
    }
}

/// The lower-case name of a framework, as the help text shows it.
pub open spec fn frame_label(f: FrameWork) -> Seq<char> {
    match f {
        FrameWork::React => "react"@,
    }
}

/// The supported framework names, comma-separated, for the help text.
pub open spec fn possible_frame_values() -> Seq<char> {
    frame_label(FrameWork::React)
}

pub fn get_possible_frame_values() -> (r: Vec<char>)
    ensures
        r@ == possible_frame_values(),
{
    crate::text::chars_of("react")
}

/// Maps the interactive framework selection (`react`, `vue`) to a value;
/// anything but the first entry is unsupported.
pub fn frame_from_index(selection: usize) -> (r: Option<FrameWork>)
    ensures
        r == (if selection == 0 {
            Option::Some(FrameWork::React)
        } else {
            Option::None::<FrameWork>
        }),
{
    if selection == 0 {
        Option::Some(FrameWork::React)
    } else {
        Option::None
    }
}

/// Maps the interactive language selection (`typescript`, `javascript`).
pub fn lang_from_index(selection: usize) -> (r: Option<CodeLanguage>)
    ensures
        r == (if selection == 0 {
            Option::Some(CodeLanguage::Ts)
        } else if selection == 1 {
            Option::Some(CodeLanguage::Js)
        } else {
            Option::None::<CodeLanguage>
        }),
{
    if selection == 0 {
        Option::Some(CodeLanguage::Ts)
    } else if selection == 1 {
        Option::Some(CodeLanguage::Js)
    } else {
        Option::None
    }
}

/// Maps the interactive loader selection (`babel-loader`, `swc-loader`).
pub fn loader_from_index(selection: usize) -> (r: Option<JsLoader>)
    ensures
        r == (if selection == 0 {
            Option::Some(JsLoader::Babel)
        } else if selection == 1 {
            Option::Some(JsLoader::Swc)
        } else {
            Option::None::<JsLoader>
        }),
{
    if selection == 0 {
        Option::Some(JsLoader::Babel)
    } else if selection == 1 {
        Option::Some(JsLoader::Swc)
    } else {
        Option::None
    }
}

/// Maps the interactive CSS selection (`sass`, `less`, `styled-components`).
pub fn css_from_index(selection: usize) -> (r: Option<CssPreset>)
    ensures
        r == (if selection == 0 {
            Option::Some(CssPreset::Sass)
        } else if selection == 1 {
            Option::Some(CssPreset::Less)
        } else {
            Option::None::<CssPreset>
        }),
{
    if selection == 0 {
        Option::Some(CssPreset::Sass)
    } else if selection == 1 {
        Option::Some(CssPreset::Less)
    } else {
        Option::None
    }
}

/// Maps the interactive build-tool selection (`farm`, `rsbuild`, `vite`,
/// `webpack`).
pub fn pack_tool_from_index(selection: usize) -> (r: Option<PackTool>)
    ensures
        r == (if selection == 0 {
            Option::Some(PackTool::Farm)
        } else if selection == 1 {
            Option::Some(PackTool::Rsbuild)
        } else if selection == 2 {
            Option::Some(PackTool::Vite)
        } else if selection == 3 {
            Option::Some(PackTool::Webpack)
        } else {
            Option::None::<PackTool>
        }),
{
    if selection == 0 {
        Option::Some(PackTool::Farm)
    } else if selection == 1 {
        Option::Some(PackTool::Rsbuild)
    } else if selection == 2 {
        Option::Some(PackTool::Vite)
    } else if selection == 3 {
        Option::Some(PackTool::Webpack)
    } else {
        Option::None
    }
}

} // verus!
