//! The files of a sparse model.

use crate::text;
use vstd::prelude::*;

verus! {

/// The stems of the files that make up a model.
pub open spec fn model_stems() -> Seq<Seq<char>> {
    seq!["cameras"@, "images"@, "points3D"@]
}

/// The stems of the files that make up a model.
pub fn stems() -> (out: Vec<String>)
    ensures
        text::views(out@) == model_stems(),
{
    let mut out: Vec<String> = Vec::new();
    out.push("cameras".to_owned());
    out.push("images".to_owned());
    out.push("points3D".to_owned());
    assert(text::views(out@) =~= model_stems());
    out
}

/// The names of the files of a model, all binary or all text.
pub open spec fn file_names(binary: bool) -> Seq<Seq<char>> {
    model_stems().map_values(
        |stem: Seq<char>|
            stem + if binary {
                ".bin"@
            } else {
                ".txt"@
            },
    )
}

/// The names of the files to read of a model directory: the binary ones where
/// there is a binary file of cameras, else the text ones.
pub fn model_files(cameras_bin: bool) -> (names: Vec<String>)
    ensures
        text::views(names@) == file_names(cameras_bin),
{
    let stems = stems();
    let mut names: Vec<String> = Vec::new();
    for i in 0..stems.len()
        invariant
            text::views(stems@) == model_stems(),
            text::views(names@) == file_names(cameras_bin).take(i as int),
    {
        let ghost before = text::views(names@);
        assert(model_stems()[i as int] == stems@[i as int]@);
        let mut name = stems[i].clone();
        name.append(
            if cameras_bin {
                ".bin"
            } else {
                ".txt"
            },
        );
        names.push(name);
        assert(text::views(names@) =~= before.push(file_names(cameras_bin)[i as int]));
        assert(file_names(cameras_bin).take(i as int + 1) =~= before.push(
            file_names(cameras_bin)[i as int],
        ));
    }
    assert(text::views(stems@).len() == stems@.len());
    assert(file_names(cameras_bin).take(stems@.len() as int) =~= file_names(cameras_bin));
    names
}

/// The file of an export to copy for a stem: the binary one, else the text one,
/// else an error that names the directory.
pub fn export_file(stem: &str, has_bin: bool, has_txt: bool, dir: &str) -> (r: Result<
    String,
    String,
>)
    ensures
        match r {
            Ok(name) => (has_bin && name@ == stem@ + "."@ + "bin"@) || (!has_bin && has_txt && name@
                == stem@ + "."@ + "txt"@),
            Err(e) => !has_bin && !has_txt && e@ == "The export at "@ + dir@ + " has no "@ + stem@
                + ".bin/.txt — incomplete COLMAP model"@,
        },
{
    if has_bin || has_txt {
        let mut name = stem.to_owned();
        name.append(".");
        name.append(
            if has_bin {
                "bin"
            } else {
                "txt"
            },
        );
        Ok(name)
    } else {
        let mut e = "The export at ".to_owned();
        e.append(dir);
        e.append(" has no ");
        e.append(stem);
        e.append(".bin/.txt — incomplete COLMAP model");
        Err(e)
    }
}

} // verus!
