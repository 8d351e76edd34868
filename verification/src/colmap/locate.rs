//! Finding a COLMAP program and what it can do.

use crate::text::{
    self, has_part, parse_bounded, same_text, split_lines, split_words, text_before_part, trim,
};
use vstd::prelude::*;

verus! {

/// A usable COLMAP program.
#[derive(Debug)]
pub struct ColmapBinary {
    pub path: String,
}

/// The first line that holds `part`.
pub open spec fn line_with(lines: Seq<Seq<char>>, part: Seq<char>) -> Option<Seq<char>>
    decreases lines.len(),
{
    if lines.len() == 0 {
        None
    } else if text::contains(lines[0], part) {
        Some(lines[0])
    } else {
        line_with(lines.skip(1), part)
    }
}

proof fn line_with_is(lines: Seq<Seq<char>>, part: Seq<char>, i: int)
    requires
        0 <= i <= lines.len(),
        forall|k: int| 0 <= k < i ==> !text::contains(#[trigger] lines[k], part),
        i < lines.len() ==> text::contains(lines[i], part),
    ensures
        line_with(lines, part) == if i < lines.len() {
            Some(lines[i])
        } else {
            None
        },
    decreases i,
{
    if i > 0 {
        assert(!text::contains(lines[0], part));
        let rest = lines.skip(1);
        assert forall|k: int| 0 <= k < i - 1 implies !text::contains(#[trigger] rest[k], part) by {
            assert(rest[k] == lines[k + 1]);
        }
        line_with_is(rest, part, i - 1);
    }
}

/// The version in a help banner such as "COLMAP 3.9.1 -- ...".
pub open spec fn version_in(help: Seq<char>) -> Option<Seq<char>> {
    match line_with(text::lines(help), "COLMAP"@) {
        Some(line) => Some(text::trimmed(text::before_part(text::trimmed(line), "--"@))),
        None => None,
    }
}

/// The major version in a help banner: the number before the first dot of the
/// version's last word.
pub open spec fn major_version_in(help: Seq<char>) -> Option<nat> {
    match version_in(help) {
        Some(v) => {
            let w = text::words(v);
            if w.len() == 0 {
                None
            } else {
                text::parse_number(text::before_part(w.last(), "."@), u32::MAX as int)
            }
        },
        None => None,
    }
}

/// Does a line of the help text begin with the command?
pub open spec fn offers(help: Seq<char>, command: Seq<char>) -> bool {
    exists|i: int|
        0 <= i < text::lines(help).len() && first_word_is(#[trigger] text::lines(help)[i], command)
}

/// Is the first word of the line `word`?
pub open spec fn first_word_is(line: Seq<char>, word: Seq<char>) -> bool {
    text::words(line).len() > 0 && text::words(line)[0] == word
}

impl ColmapBinary {
    /// The program at `path`.
    pub fn new(path: String) -> (b: ColmapBinary)
        ensures
            b.path@ == path@,
    {
        ColmapBinary { path }
    }

    /// The version that the program's help banner gives. `help` is what
    /// `colmap help` printed, if it could be run.
    pub fn version(&self, help: &Option<String>) -> (v: Option<String>)
        ensures
            text::view_of(v) == (match text::view_of(*help) {
                Some(h) => version_in(h),
                None => None,
            }),
    {
        let h = match help {
            Some(h) => h,
            None => return None,
        };
        let lines = split_lines(h.as_str());
        let ghost all = text::views(lines@);
        let mut i: usize = 0;
        let n: usize = lines.len();
        while i < n
            invariant
                i <= n,
                n == lines@.len(),
                all == text::views(lines@),
                all == text::lines(h@),
                text::view_of(*help) == Some(h@),
                forall|k: int| 0 <= k < i ==> !text::contains(#[trigger] all[k], "COLMAP"@),
            decreases n - i,
        {
            assert(all[i as int] == lines@[i as int]@);
            if has_part(lines[i].as_str(), "COLMAP") {
                proof {
                    line_with_is(all, "COLMAP"@, i as int);
                }
                let line = trim(lines[i].as_str());
                let banner = text_before_part(line.as_str(), "--");
                return Some(trim(banner.as_str()));
            }
            i += 1;
        }
        proof {
            line_with_is(all, "COLMAP"@, n as int);
        }
        None
    }

    /// The major version that the program's help banner gives.
    pub fn major_version(&self, help: &Option<String>) -> (v: Option<u32>)
        ensures
            match v {
                Some(n) => text::view_of(*help) matches Some(h) && major_version_in(h) == Some(
                    n as nat,
                ),
                None => text::view_of(*help) matches Some(h) ==> major_version_in(h) is None,
            },
    {
        let version = match self.version(help) {
            Some(v) => v,
            None => return None,
        };
        let words = split_words(version.as_str());
        let n: usize = words.len();
        if n == 0 {
            return None;
        }
        assert(text::views(words@).last() == words@[n - 1]@);
        let number = text_before_part(words[n - 1].as_str(), ".");
        match parse_bounded(number.as_str(), u32::MAX as u64) {
            Some(v) => Some(v as u32),
            None => None,
        }
    }

    /// Does this program offer a command, going by its help text?
    pub fn has_command(&self, command: &str, help: &Option<String>) -> (b: bool)
        ensures
            b == (text::view_of(*help) matches Some(h) && offers(h, command@)),
    {
        let h = match help {
            Some(h) => h,
            None => return false,
        };
        let lines = split_lines(h.as_str());
        let ghost all = text::views(lines@);
        for i in 0..lines.len()
            invariant
                all == text::views(lines@),
                all == text::lines(h@),
                text::view_of(*help) == Some(h@),
                forall|k: int| 0 <= k < i ==> !first_word_is(#[trigger] all[k], command@),
        {
            assert(all[i as int] == lines@[i as int]@);
            let words = split_words(lines[i].as_str());
            if words.len() > 0 {
                assert(text::views(words@)[0] == words@[0]@);
                if same_text(words[0].as_str(), command) {
                    assert(first_word_is(all[i as int], command@));
                    return true;
                }
            }
        }
        false
    }

    /// The whole help text of a command: what it printed on its two outputs, or
    /// nothing if it could not be run.
    pub fn subcommand_help(&self, printed: Option<(String, String)>) -> (t: String)
        ensures
            t@ == (match printed {
                Some((out, err)) => out@ + err@,
                None => Seq::<char>::empty(),
            }),
    {
        match printed {
            Some((out, err)) => {
                let mut t = out;
                t.append(err.as_str());
                t
            },
            None => {
                let t = String::new();
                assert(t@ =~= Seq::<char>::empty());
                t
            },
        }
    }
}

/// The names under which the program goes, the best first. On Windows a batch
/// file sets up the libraries before it calls the program.
pub open spec fn names_on(windows: bool) -> Seq<Seq<char>> {
    if windows {
        seq!["COLMAP.bat"@, "colmap.bat"@, "colmap.exe"@]
    } else {
        seq!["colmap"@]
    }
}

/// The names under which the program goes, the best first.
pub fn binary_names(windows: bool) -> (names: Vec<String>)
    ensures
        text::views(names@) == names_on(windows),
{
    let mut names: Vec<String> = Vec::new();
    if windows {
        names.push("COLMAP.bat".to_owned());
        names.push("colmap.bat".to_owned());
        names.push("colmap.exe".to_owned());
    } else {
        names.push("colmap".to_owned());
    }
    assert(text::views(names@) =~= names_on(windows));
    names
}

/// A directory as it was found: the names of its files, and its directories in
/// the order in which they were listed.
#[derive(Debug)]
pub struct DirTree {
    pub files: Vec<String>,
    pub dirs: Vec<(String, DirTree)>,
}

/// Is there a file with the name?
pub open spec fn has_file(tree: DirTree, name: Seq<char>) -> bool {
    exists|i: int| 0 <= i < tree.files@.len() && (#[trigger] tree.files@[i])@ == name
}

/// The first of the names that is a file here.
pub open spec fn file_here(tree: DirTree, names: Seq<Seq<char>>) -> Option<Seq<char>>
    decreases names.len(),
{
    if names.len() == 0 {
        None
    } else if has_file(tree, names[0]) {
        Some(names[0])
    } else {
        file_here(tree, names.skip(1))
    }
}

/// The way to the first file with one of the names, down to `depth` levels
/// below: in the directory itself, or else in its directories, one after the
/// other.
pub open spec fn search(tree: DirTree, depth: nat, names: Seq<Seq<char>>) -> Option<Seq<Seq<char>>>
    decreases depth, tree.dirs@.len() + 1,
{
    if file_here(tree, names) is Some {
        Some(seq![file_here(tree, names)->0])
    } else if depth == 0 {
        None
    } else {
        search_dirs(tree, depth, names, 0)
    }
}

/// The way to the first file with one of the names in the directories from
/// number `i` on.
pub open spec fn search_dirs(tree: DirTree, depth: nat, names: Seq<Seq<char>>, i: nat) -> Option<
    Seq<Seq<char>>,
>
    decreases depth, tree.dirs@.len() - i,
{
    if depth == 0 || i >= tree.dirs@.len() {
        None
    } else {
        match search(tree.dirs@[i as int].1, (depth - 1) as nat, names) {
            Some(way) => Some(seq![tree.dirs@[i as int].0@] + way),
            None => search_dirs(tree, depth, names, i + 1),
        }
    }
}

fn find_file_here(tree: &DirTree, names: &Vec<String>) -> (found: Option<String>)
    ensures
        text::view_of(found) == file_here(*tree, text::views(names@)),
{
    let ghost all = text::views(names@);
    assert(all.skip(0) =~= all);
    for i in 0..names.len()
        invariant
            all == text::views(names@),
            file_here(*tree, all) == file_here(*tree, all.skip(i as int)),
    {
        assert(all.skip(i as int)[0] == names@[i as int]@);
        for j in 0..tree.files.len()
            invariant
                i < names@.len(),
                all == text::views(names@),
                all.skip(i as int)[0] == names@[i as int]@,
                file_here(*tree, all) == file_here(*tree, all.skip(i as int)),
                forall|k: int| 0 <= k < j ==> (#[trigger] tree.files@[k])@ != names@[i as int]@,
        {
            if same_text(tree.files[j].as_str(), names[i].as_str()) {
                assert(has_file(*tree, names@[i as int]@));
                return Some(names[i].clone());
            }
        }
        assert(!has_file(*tree, names@[i as int]@));
        assert(all.skip(i as int).skip(1) =~= all.skip(i as int + 1));
    }
    None
}

/// Searches a directory and up to `depth` levels below it for the program, and
/// gives the way to it.
pub fn search_dir(tree: &DirTree, depth: usize, names: &Vec<String>) -> (way: Option<Vec<String>>)
    ensures
        (match way {
            Some(w) => Some(text::views(w@)),
            None => None,
        }) == search(*tree, depth as nat, text::views(names@)),
    decreases depth,
{
    let ghost all = text::views(names@);
    match find_file_here(tree, names) {
        Some(name) => {
            let mut way: Vec<String> = Vec::new();
            way.push(name);
            assert(text::views(way@) =~= seq![name@]);
            return Some(way);
        },
        None => {},
    }
    if depth == 0 {
        return None;
    }
    let n: usize = tree.dirs.len();
    let mut i: usize = 0;
    while i < n
        invariant
            i <= n,
            n == tree.dirs@.len(),
            depth > 0,
            all == text::views(names@),
            search(*tree, depth as nat, all) == search_dirs(*tree, depth as nat, all, i as nat),
        decreases n - i,
    {
        let dir = &tree.dirs[i];
        match search_dir(&dir.1, depth - 1, names) {
            Some(below) => {
                let mut way: Vec<String> = Vec::new();
                way.push(dir.0.clone());
                assert(text::views(way@) =~= seq![dir.0@]);
                for j in 0..below.len()
                    invariant
                        text::views(way@) == seq![dir.0@] + text::views(below@).take(j as int),
                {
                    let ghost done = text::views(way@);
                    way.push(below[j].clone());
                    assert(text::views(way@) =~= done.push(below@[j as int]@));
                    assert(text::views(below@).take(j as int + 1) =~= text::views(below@).take(
                        j as int,
                    ).push(below@[j as int]@));
                }
                assert(text::views(below@).take(below@.len() as int) =~= text::views(below@));
                return Some(way);
            },
            None => {},
        }
        i += 1;
    }
    None
}

/// What the places hold in which the program is looked for.
#[derive(Debug)]
pub struct Places {
    /// The path that the user gave.
    pub explicit: Option<String>,
    /// The path in the environment, and whether it is a file.
    pub environment: Option<(String, bool)>,
    /// Where each of the program's names was found on the search path.
    pub search_path: Vec<Option<String>>,
    /// What the search of the cache directory found.
    pub cached: Option<String>,
}

/// The first name that was found on the search path.
pub open spec fn first_found(found: Seq<Option<String>>) -> Option<Seq<char>>
    decreases found.len(),
{
    if found.len() == 0 {
        None
    } else {
        match found[0] {
            Some(p) => Some(p@),
            None => first_found(found.skip(1)),
        }
    }
}

/// Where the program is taken from: the user's path, whether or not it is
/// there; the environment, if it names a file; the search path; the cache.
pub open spec fn located(p: Places) -> Option<Seq<char>> {
    if p.explicit is Some {
        text::view_of(p.explicit)
    } else if p.environment matches Some((_, true)) {
        Some((p.environment->0).0@)
    } else if first_found(p.search_path@) is Some {
        first_found(p.search_path@)
    } else {
        text::view_of(p.cached)
    }
}

/// Locates the program.
pub fn locate(places: &Places) -> (found: Option<ColmapBinary>)
    ensures
        match found {
            Some(b) => located(*places) == Some(b.path@),
            None => located(*places) is None,
        },
{
    match &places.explicit {
        Some(p) => return Some(ColmapBinary::new(p.clone())),
        None => {},
    }
    match &places.environment {
        Some((p, is_file)) => {
            if *is_file {
                return Some(ColmapBinary::new(p.clone()));
            }
        },
        None => {},
    }
    let ghost all = places.search_path@;
    assert(all.skip(0) =~= all);
    for i in 0..places.search_path.len()
        invariant
            all == places.search_path@,
            first_found(all) == first_found(all.skip(i as int)),
            places.explicit is None,
            !(places.environment matches Some((_, true))),
    {
        assert(all.skip(i as int)[0] == all[i as int]);
        assert(all.skip(i as int).skip(1) =~= all.skip(i as int + 1));
        match &places.search_path[i] {
            Some(p) => return Some(ColmapBinary::new(p.clone())),
            None => {},
        }
    }
    match &places.cached {
        Some(p) => Some(ColmapBinary::new(p.clone())),
        None => None,
    }
}

/// A path that the user gives wins over everything else.
pub proof fn explicit_path_wins(p: Places)
    requires
        p.explicit is Some,
    ensures
        located(p) == text::view_of(p.explicit),
{
}

} // verus!
