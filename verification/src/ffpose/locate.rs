//! Finding what runs the script.

use crate::text::{self, trim};
use vstd::prelude::*;

verus! {

/// What runs the script.
#[derive(Debug)]
pub enum PyRuntime {
    /// The program `uv`, which provides the script's Python environment.
    Uv(String),
    /// A Python that has what the script needs.
    Python(String),
}

/// The path of a runtime's program.
pub open spec fn runtime_path(r: PyRuntime) -> Seq<char> {
    match r {
        PyRuntime::Uv(p) => p@,
        PyRuntime::Python(p) => p@,
    }
}

/// A runtime in words: the version that it printed or else its kind, and where
/// it is.
pub open spec fn runtime_text(r: PyRuntime, printed: Option<Seq<char>>) -> Seq<char> {
    let version = match printed {
        Some(p) => text::trimmed(p),
        None => Seq::empty(),
    };
    match r {
        PyRuntime::Uv(p) => (if version.len() > 0 {
            version
        } else {
            "uv"@
        }) + " ("@ + p@ + ")"@,
        PyRuntime::Python(p) => (if version.len() > 0 {
            version
        } else {
            "python"@
        }) + " ("@ + p@ + ", MESHSPLAT_FFPOSE_PYTHON)"@,
    }
}

impl PyRuntime {
    /// The path of the program.
    pub fn binary(&self) -> (p: &str)
        ensures
            p@ == runtime_path(*self),
    {
        match self {
            PyRuntime::Uv(p) => p.as_str(),
            PyRuntime::Python(p) => p.as_str(),
        }
    }

    /// The runtime in words. `printed` is what it printed when it was asked for
    /// its version, if it could be run.
    pub fn describe(&self, printed: &Option<String>) -> (t: String)
        ensures
            t@ == runtime_text(*self, text::view_of(*printed)),
    {
        let version = match printed {
            Some(p) => trim(p.as_str()),
            None => {
                let none = String::new();
                assert(none@ =~= Seq::<char>::empty());
                none
            },
        };
        let known = !version.as_str().is_empty();
        match self {
            PyRuntime::Uv(p) => {
                let mut t = if known {
                    version
                } else {
                    "uv".to_owned()
                };
                t.append(" (");
                t.append(p.as_str());
                t.append(")");
                t
            },
            PyRuntime::Python(p) => {
                let mut t = if known {
                    version
                } else {
                    "python".to_owned()
                };
                t.append(" (");
                t.append(p.as_str());
                t.append(", MESHSPLAT_FFPOSE_PYTHON)");
                t
            },
        }
    }
}

/// What the places hold in which a runtime is looked for.
#[derive(Debug)]
pub struct RuntimePlaces {
    /// The path to `uv` that the user gave.
    pub explicit_uv: Option<String>,
    /// The path to `uv` in the environment, and whether it is a file.
    pub env_uv: Option<(String, bool)>,
    /// Where `uv` was found on the search path.
    pub path_uv: Option<String>,
    /// The Python in the environment, and whether it is a file.
    pub env_python: Option<(String, bool)>,
    /// Where that Python was found on the search path.
    pub path_python: Option<String>,
}

/// Which runtime is taken, and its path: the user's `uv`, whether or not it is
/// there; that of the environment, if it is a file; that on the search path; the
/// Python of the environment, as a file or by its name.
pub open spec fn runtime_at(p: RuntimePlaces) -> Option<(bool, Seq<char>)> {
    if p.explicit_uv is Some {
        Some((true, (p.explicit_uv->0)@))
    } else if p.env_uv matches Some((_, true)) {
        Some((true, (p.env_uv->0).0@))
    } else if p.path_uv is Some {
        Some((true, (p.path_uv->0)@))
    } else {
        match p.env_python {
            Some((path, is_file)) => if is_file {
                Some((false, path@))
            } else if p.path_python is Some {
                Some((false, (p.path_python->0)@))
            } else {
                None
            },
            None => None,
        }
    }
}

/// Locates a runtime.
pub fn locate(places: &RuntimePlaces) -> (r: Option<PyRuntime>)
    ensures
        match r {
            Some(runtime) => runtime_at(*places) == Some((runtime is Uv, runtime_path(runtime))),
            None => runtime_at(*places) is None,
        },
{
    match &places.explicit_uv {
        Some(p) => return Some(PyRuntime::Uv(p.clone())),
        None => {},
    }
    match &places.env_uv {
        Some((p, is_file)) => {
            if *is_file {
                return Some(PyRuntime::Uv(p.clone()));
            }
        },
        None => {},
    }
    match &places.path_uv {
        Some(p) => return Some(PyRuntime::Uv(p.clone())),
        None => {},
    }
    match &places.env_python {
        Some((p, is_file)) => {
            if *is_file {
                return Some(PyRuntime::Python(p.clone()));
            }
            match &places.path_python {
                Some(found) => Some(PyRuntime::Python(found.clone())),
                None => None,
            }
        },
        None => None,
    }
}

/// A path that the user gives wins, whether or not it is there.
pub proof fn explicit_uv_wins(p: RuntimePlaces)
    requires
        p.explicit_uv is Some,
    ensures
        runtime_at(p) == Some((true, (p.explicit_uv->0)@)),
{
}

/// A `uv` on the search path wins over a Python of the environment.
pub proof fn uv_wins_over_python(p: RuntimePlaces)
    requires
        p.path_uv is Some,
    ensures
        runtime_at(p) matches Some((true, _)),
{
}

} // verus!
