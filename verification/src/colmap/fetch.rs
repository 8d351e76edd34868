//! Getting COLMAP where it is not installed.

use super::locate::{self, ColmapBinary};
use crate::text::{self, decimal_text, lower_text, same_text};
use vstd::prelude::*;

verus! {

/// Where getting COLMAP stands.
#[derive(Debug)]
pub enum FetchEvent {
    Found { path: String, version: Option<String> },
    Downloading { received: u64, total: Option<u64> },
    Extracting,
}

/// Bytes in a megabyte.
pub const MEGABYTE: u64 = 1048576;

/// What a user is told of the event.
pub open spec fn fetch_text(e: FetchEvent) -> Seq<char> {
    match e {
        FetchEvent::Found { path, version } => "COLMAP: "@ + (match version {
            Some(v) => v@,
            None => "found"@,
        }) + " ("@ + path@ + ")"@,
        FetchEvent::Downloading { received, total } => match total {
            Some(t) => "Downloading COLMAP... "@ + text::decimal((received / MEGABYTE) as nat)
                + "/"@ + text::decimal((t / MEGABYTE) as nat) + " MB"@,
            None => "Downloading COLMAP... "@ + text::decimal((received / MEGABYTE) as nat)
                + " MB"@,
        },
        FetchEvent::Extracting => "Extracting COLMAP..."@,
    }
}

impl FetchEvent {
    /// What a user is told of the event.
    pub fn message(&self) -> (t: String)
        ensures
            t@ == fetch_text(*self),
    {
        match self {
            FetchEvent::Found { path, version } => {
                let mut t = "COLMAP: ".to_owned();
                match version {
                    Some(v) => t.append(v.as_str()),
                    None => t.append("found"),
                }
                t.append(" (");
                t.append(path.as_str());
                t.append(")");
                t
            },
            FetchEvent::Downloading { received, total } => {
                let mut t = "Downloading COLMAP... ".to_owned();
                t.append(decimal_text(*received / MEGABYTE).as_str());
                match total {
                    Some(all) => {
                        t.append("/");
                        t.append(decimal_text(*all / MEGABYTE).as_str());
                    },
                    None => {},
                }
                t.append(" MB");
                t
            },
            FetchEvent::Extracting => "Extracting COLMAP...".to_owned(),
        }
    }
}

/// Which prebuilt COLMAP to download.
#[derive(Debug, Clone, Copy, PartialEq, Eq, Structural)]
pub enum ColmapBuild {
    /// The CUDA build where there is an NVIDIA GPU.
    Auto,
    Cuda,
    NoCuda,
}

/// The build that a word stands for, letters in any case.
pub open spec fn build_named(s: Seq<char>) -> Option<ColmapBuild> {
    let l = text::lower(s);
    if l == "auto"@ {
        Some(ColmapBuild::Auto)
    } else if l == "cuda"@ {
        Some(ColmapBuild::Cuda)
    } else if l == "nocuda"@ {
        Some(ColmapBuild::NoCuda)
    } else {
        None
    }
}

impl ColmapBuild {
    /// The build that `s` names.
    pub fn from_str(s: &str) -> (r: Result<ColmapBuild, String>)
        ensures
            match r {
                Ok(b) => build_named(s@) == Some(b),
                Err(e) => build_named(s@) is None && e@ == "unknown COLMAP build '"@ + text::lower(
                    s@,
                ) + "' (expected auto|cuda|nocuda)"@,
            },
    {
        let l = lower_text(s);
        if same_text(l.as_str(), "auto") {
            Ok(ColmapBuild::Auto)
        } else if same_text(l.as_str(), "cuda") {
            Ok(ColmapBuild::Cuda)
        } else if same_text(l.as_str(), "nocuda") {
            Ok(ColmapBuild::NoCuda)
        } else {
            let mut e = "unknown COLMAP build '".to_owned();
            e.append(l.as_str());
            e.append("' (expected auto|cuda|nocuda)");
            Err(e)
        }
    }

    /// Is the CUDA build to be downloaded on a machine with or without an
    /// NVIDIA GPU?
    pub fn prefer_cuda(self, nvidia: bool) -> (b: bool)
        ensures
            b == (self is Cuda || (self is Auto && nvidia)),
    {
        match self {
            ColmapBuild::Auto => nvidia,
            ColmapBuild::Cuda => true,
            ColmapBuild::NoCuda => false,
        }
    }
}

/// Where the prebuilt program is downloaded from: the user's address, or the
/// official build with or without CUDA.
pub open spec fn download_url(prefer_cuda: bool, chosen: Option<Seq<char>>) -> Seq<char> {
    match chosen {
        Some(url) => url,
        None => if prefer_cuda {
            "https://github.com/colmap/colmap/releases/download/4.0.4/colmap-x64-windows-cuda.zip"@
        } else {
            "https://github.com/colmap/colmap/releases/download/4.0.4/colmap-x64-windows-nocuda.zip"@
        },
    }
}

/// Why COLMAP cannot be had.
#[derive(Debug)]
pub enum FetchError {
    /// A program was found at the path, but does not run.
    Broken(String),
    /// None was found, and none can be downloaded for this system.
    NotFound,
    /// There is nowhere to download to.
    NoCache,
    /// What was unpacked into the directory holds no COLMAP.
    NotInArchive(String),
}

/// What a user is told of the error.
pub open spec fn fetch_error_text(e: FetchError) -> Seq<char> {
    match e {
        FetchError::Broken(path) => "COLMAP at "@ + path@
            + " exists but failed to run (`colmap help`). Check the install or pass a different --colmap path."@,
        FetchError::NotFound => "COLMAP was not found on this system and automatic download is only available for Windows.\nInstall it with your package manager and re-run:\n\u{2022} Debian/Ubuntu:  sudo apt install colmap\n\u{2022} macOS:          brew install colmap\n\u{2022} Other:          https://colmap.github.io/install.html\nThen re-run, or point meshsplat at the binary with --colmap <PATH>."@,
        FetchError::NoCache => "No usable cache directory on this system"@,
        FetchError::NotInArchive(dir) => "COLMAP archive extracted to "@ + dir@
            + " but no COLMAP binary was found inside"@,
    }
}

impl FetchError {
    /// What a user is told of the error.
    pub fn message(&self) -> (t: String)
        ensures
            t@ == fetch_error_text(*self),
    {
        match self {
            FetchError::Broken(path) => {
                let mut t = "COLMAP at ".to_owned();
                t.append(path.as_str());
                t.append(
                    " exists but failed to run (`colmap help`). Check the install or pass a different --colmap path.",
                );
                t
            },
            FetchError::NotFound => "COLMAP was not found on this system and automatic download is only available for Windows.\nInstall it with your package manager and re-run:\n\u{2022} Debian/Ubuntu:  sudo apt install colmap\n\u{2022} macOS:          brew install colmap\n\u{2022} Other:          https://colmap.github.io/install.html\nThen re-run, or point meshsplat at the binary with --colmap <PATH>.".to_owned(),
            FetchError::NoCache => "No usable cache directory on this system".to_owned(),
            FetchError::NotInArchive(dir) => {
                let mut t = "COLMAP archive extracted to ".to_owned();
                t.append(dir.as_str());
                t.append(" but no COLMAP binary was found inside");
                t
            },
        }
    }
}

/// What is known before COLMAP is used or fetched.
#[derive(Debug)]
pub struct FetchFacts {
    /// The program that was located, if any.
    pub located: Option<ColmapBinary>,
    /// What the located program's `help` command printed, if it could be run.
    pub help: Option<String>,
    /// Does the located program run?
    pub works: bool,
    pub windows: bool,
    pub prefer_cuda: bool,
    /// The address that the user chose to download from.
    pub url: Option<String>,
    /// The directory to download to.
    pub install_dir: Option<String>,
}

/// Does the event report that the program was found, with its path and the
/// version that its help banner gives?
pub open spec fn reports_found(e: FetchEvent, b: ColmapBinary, help: Option<String>) -> bool {
    &&& e matches FetchEvent::Found { path, version }
    &&& path@ == b.path@
    &&& text::view_of(version) == (match text::view_of(help) {
        Some(h) => locate::version_in(h),
        None => None,
    })
}

/// What is reported when a program was found. `help` is what its `help` command
/// printed, if it could be run.
pub fn found_event(b: &ColmapBinary, help: &Option<String>) -> (e: FetchEvent)
    ensures
        reports_found(e, *b, *help),
{
    FetchEvent::Found { path: b.path.clone(), version: b.version(help) }
}

/// How COLMAP is had.
#[derive(Debug)]
pub enum FetchPlan {
    /// The program is there; the event is all that is reported.
    Use(ColmapBinary, FetchEvent),
    Download { url: String, dest: String },
}

/// What is to be done: a program that runs is used and reported, one that does
/// not run is an error, and where there is none it is downloaded on Windows only.
pub fn ensure_colmap(facts: FetchFacts) -> (r: Result<FetchPlan, FetchError>)
    ensures
        match facts.located {
            Some(b) => if facts.works {
                r matches Ok(FetchPlan::Use(c, event)) && c.path@ == b.path@ && reports_found(
                    event,
                    b,
                    facts.help,
                )
            } else {
                r matches Err(FetchError::Broken(p)) && p@ == b.path@
            },
            None => if !facts.windows {
                r matches Err(FetchError::NotFound)
            } else {
                match facts.install_dir {
                    None => r matches Err(FetchError::NoCache),
                    Some(dir) => r matches Ok(FetchPlan::Download { url, dest }) && url@
                        == download_url(facts.prefer_cuda, text::view_of(facts.url)) && dest@
                        == dir@,
                }
            },
        },
{
    match facts.located {
        Some(b) => {
            return if facts.works {
                let event = found_event(&b, &facts.help);
                Ok(FetchPlan::Use(b, event))
            } else {
                Err(FetchError::Broken(b.path))
            };
        },
        None => {},
    }
    if !facts.windows {
        return Err(FetchError::NotFound);
    }
    let url = match facts.url {
        Some(u) => u,
        None => if facts.prefer_cuda {
            "https://github.com/colmap/colmap/releases/download/4.0.4/colmap-x64-windows-cuda.zip".to_owned()
        } else {
            "https://github.com/colmap/colmap/releases/download/4.0.4/colmap-x64-windows-nocuda.zip".to_owned()
        },
    };
    match facts.install_dir {
        Some(dest) => Ok(FetchPlan::Download { url, dest }),
        None => Err(FetchError::NoCache),
    }
}

/// The program that was found after unpacking into `dest`, and what is reported
/// of it.
pub fn after_unpacking(located: Option<ColmapBinary>, help: &Option<String>, dest: String) -> (r:
    Result<(ColmapBinary, FetchEvent), FetchError>)
    ensures
        match located {
            Some(b) => r matches Ok((c, event)) && c == b && reports_found(event, b, *help),
            None => r matches Err(FetchError::NotInArchive(d)) && d@ == dest@,
        },
{
    match located {
        Some(b) => {
            let event = found_event(&b, help);
            Ok((b, event))
        },
        None => Err(FetchError::NotInArchive(dest)),
    }
}

} // verus!
