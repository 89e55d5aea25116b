//! The in-memory model of a `lion.toml` configuration document.

use vstd::prelude::*;

verus! {

/// Mathematical view of a [`Pkg`]: descriptive package metadata.
#[verifier::ext_equal]
pub struct PkgView {
    pub name: Seq<char>,
    pub description: Option<Seq<char>>,
    pub long_description: Option<Seq<char>>,
}

/// Mathematical view of a [`Bin`]: what to compile and where to put it.
#[verifier::ext_equal]
pub struct BinView {
    pub files: Seq<Seq<char>>,
    pub out_dir: Option<Seq<char>>,
    pub out_file: Option<Seq<char>>,
}

/// Mathematical view of a [`Config`].
#[verifier::ext_equal]
pub struct ConfigView {
    pub pkg: PkgView,
    pub bin: BinView,
}

/// The `[pkg]` table: metadata about the current package. Purely
/// descriptive; it never affects compilation.
#[derive(Clone, Debug, PartialEq)]
pub struct Pkg {
    pub name: String,
    pub description: Option<String>,
    pub long_description: Option<String>,
}

/// The `[bin]` table: the ordered source files of the project and the
/// output specification, each output piece independently optional.
#[derive(Clone, Debug, PartialEq)]
pub struct Bin {
    /// Files in the project to compile, in link order.
    pub files: Vec<String>,
    /// Output directory; defaults to `dist` when absent.
    pub out_dir: Option<String>,
    /// Filename of the compiled binary; defaults to `out.exe` when absent.
    pub out_file: Option<String>,
}

/// Structure representing the data of a `lion.toml` file.
#[derive(Clone, Debug, PartialEq)]
pub struct Config {
    pub pkg: Pkg,
    pub bin: Bin,
}

pub open spec fn view_of_opt_string(o: Option<String>) -> Option<Seq<char>> {
    match o {
        Some(s) => Some(s@),
        None => None,
    }
}

impl View for Pkg {
    type V = PkgView;

    open spec fn view(&self) -> PkgView {
        PkgView {
            name: self.name@,
            description: view_of_opt_string(self.description),
            long_description: view_of_opt_string(self.long_description),
        }
    }
}

impl View for Bin {
    type V = BinView;

    open spec fn view(&self) -> BinView {
        BinView {
            files: self.files.deep_view(),
            out_dir: view_of_opt_string(self.out_dir),
            out_file: view_of_opt_string(self.out_file),
        }
    }
}

impl View for Config {
    type V = ConfigView;

    open spec fn view(&self) -> ConfigView {
        ConfigView { pkg: self.pkg@, bin: self.bin@ }
    }
}

} // verus!
