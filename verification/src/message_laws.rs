//! What users are told names what is wrong: the path, the property, the number or the
//! cause that an error carries stands in its message.

use crate::cli::{self, InputError};
use crate::colmap::fetch::{self, FetchError};
use crate::colmap::pipeline::{self as sfm, SfmError};
use crate::ffpose::pipeline::{self as ffpose, FfposeError};
use crate::ply::{self, PlyError};
use crate::text;
use crate::tsdf::{self, MeshError};
use vstd::prelude::*;

verus! {

/// Does the part stand in the text, with something before it?
pub open spec fn told(s: Seq<char>, part: Seq<char>) -> bool {
    exists|a: Seq<char>, b: Seq<char>| a.len() > 0 && s == #[trigger] (a + part + b)
}

proof fn is_told(a: Seq<char>, part: Seq<char>, b: Seq<char>)
    requires
        a.len() > 0,
    ensures
        told(a + part + b, part),
{
}

proof fn is_told_last(a: Seq<char>, part: Seq<char>)
    requires
        a.len() > 0,
    ensures
        told(a + part, part),
{
    assert(a + part =~= a + part + Seq::<char>::empty());
}

/// An error in a PLY file names the format, the type, the property or the file that
/// is wrong, whichever it is about.
pub proof fn file_errors_name_what_is_wrong(t: Seq<char>, found: Seq<char>, points: bool, path: Seq<char>)
    ensures
        told(ply::error_text(PlyError::UnsupportedFormat(t), points, path), t),
        told(ply::error_text(PlyError::UnknownType(t), points, path), t),
        told(ply::error_text(PlyError::MissingProperty(t, found), points, path), t),
        !points ==> told(ply::error_text(PlyError::MissingProperty(t, found), points, path), found),
        told(ply::error_text(PlyError::Empty, points, path), path),
{
    reveal_strlit("Unsupported PLY format '");
    reveal_strlit("Unknown PLY type '");
    reveal_strlit("Unknown PLY property type '");
    reveal_strlit("PLY vertex has no '");
    reveal_strlit("PLY is missing the '");
    reveal_strlit("No points found in ");
    reveal_strlit("No finite gaussians found in ");
    let middle = "' property — not a 3D gaussian splatting file? Found properties: "@;
    if points {
        is_told("Unsupported PLY format '"@, t, "'"@);
        is_told("Unknown PLY type '"@, t, "'"@);
        is_told("PLY vertex has no '"@, t, "'"@);
        is_told_last("No points found in "@, path);
    } else {
        is_told("Unsupported PLY format '"@, t, "' (need binary_little_endian)"@);
        is_told("Unknown PLY property type '"@, t, "'"@);
        is_told("PLY is missing the '"@, t, middle + found);
        assert("PLY is missing the '"@ + t + (middle + found) =~= "PLY is missing the '"@ + t
            + middle + found);
        is_told_last("PLY is missing the '"@ + t + middle, found);
        is_told_last("No finite gaussians found in "@, path);
    }
}

/// An error of pose estimation names the directory and how many photos it holds, or
/// the cause.
pub proof fn pose_errors_name_what_is_wrong(found: usize, t: String)
    ensures
        told(sfm::sfm_error_text(SfmError::TooFewImages { found, dir: t }), t@),
        told(
            sfm::sfm_error_text(SfmError::TooFewImages { found, dir: t }),
            text::decimal(found as nat),
        ),
        told(sfm::sfm_error_text(SfmError::NoMasks(t)), t@),
        told(sfm::sfm_error_text(SfmError::Extraction(t)), t@),
        told(sfm::sfm_error_text(SfmError::Matching(t)), t@),
        told(sfm::sfm_error_text(SfmError::Mapping(t)), t@),
        sfm::sfm_error_text(SfmError::Model(t)) == t@,
{
    reveal_strlit("Need at least 3 images to reconstruct, found ");
    reveal_strlit("--masks directory ");
    reveal_strlit("COLMAP feature extraction failed: ");
    reveal_strlit("COLMAP feature matching failed: ");
    reveal_strlit("COLMAP mapping failed: ");
    let head = "Need at least 3 images to reconstruct, found "@;
    let number = text::decimal(found as nat);
    is_told_last(head + number + " in "@, t@);
    is_told(head, number, " in "@ + t@);
    assert(head + number + (" in "@ + t@) =~= head + number + " in "@ + t@);
    is_told("--masks directory "@, t@, " does not exist"@);
    is_told_last("COLMAP feature extraction failed: "@, t@);
    is_told_last("COLMAP feature matching failed: "@, t@);
    is_told_last("COLMAP mapping failed: "@, t@);
}

/// An error of the script names the directory and how many photos it holds, or the
/// backend and the cause.
pub proof fn script_errors_name_what_is_wrong(found: usize, t: String, backend: ffpose::FfBackend)
    ensures
        told(ffpose::ffpose_error_text(FfposeError::TooFewImages { found, dir: t }), t@),
        told(
            ffpose::ffpose_error_text(FfposeError::TooFewImages { found, dir: t }),
            text::decimal(found as nat),
        ),
        told(ffpose::ffpose_error_text(FfposeError::Script { backend, cause: t }), t@),
        ffpose::backend_name(backend).is_prefix_of(
            ffpose::ffpose_error_text(FfposeError::Script { backend, cause: t }),
        ),
{
    reveal_strlit("Need at least 2 images for feed-forward pose estimation, found ");
    reveal_strlit(" pose estimation failed: ");
    let head = "Need at least 2 images for feed-forward pose estimation, found "@;
    let number = text::decimal(found as nat);
    is_told_last(head + number + " in "@, t@);
    is_told(head, number, " in "@ + t@);
    assert(head + number + (" in "@ + t@) =~= head + number + " in "@ + t@);
    let name = ffpose::backend_name(backend);
    is_told_last(name + " pose estimation failed: "@, t@);
    assert(name =~= (name + " pose estimation failed: "@ + t@).subrange(0, name.len() as int));
}

/// An error of getting COLMAP names the path that it is about.
pub proof fn fetch_errors_name_what_is_wrong(t: String)
    ensures
        told(fetch::fetch_error_text(FetchError::Broken(t)), t@),
        told(fetch::fetch_error_text(FetchError::NotInArchive(t)), t@),
{
    reveal_strlit("COLMAP at ");
    reveal_strlit("COLMAP archive extracted to ");
    is_told(
        "COLMAP at "@,
        t@,
        " exists but failed to run (`colmap help`). Check the install or pass a different --colmap path."@,
    );
    is_told(
        "COLMAP archive extracted to "@,
        t@,
        " but no COLMAP binary was found inside"@,
    );
}

/// A refused input is named.
pub proof fn refused_inputs_are_named(t: String)
    ensures
        told(cli::input_error_text(InputError::NotAModel(t)), t@),
        told(cli::input_error_text(InputError::Missing(t)), t@),
        told(cli::input_error_text(InputError::NoImages(t)), t@),
        told(cli::input_error_text(InputError::NoImages(t)), "jpg/jpeg/png/tif/tiff/bmp"@),
{
    reveal_strlit("Input file ");
    reveal_strlit("Input path ");
    reveal_strlit("No images found in ");
    is_told("Input file "@, t@, " is not a .ply — pass a photo directory or a splat file"@);
    is_told("Input path "@, t@, " does not exist"@);
    let head = "No images found in "@;
    let (open, list, end) = (
        " (looked for "@,
        "jpg/jpeg/png/tif/tiff/bmp"@,
        "). Point meshsplat at a folder of photos."@,
    );
    is_told(head, t@, open + list + end);
    assert(head + t@ + (open + list + end) =~= head + t@ + open + list + end);
    is_told(head + t@ + open, list, end);
}

/// An error of meshing names how many gaussians there are and the threshold, or how
/// many gigabytes the grid would take.
pub proof fn mesh_errors_name_what_is_wrong(n: usize, threshold: Seq<char>)
    ensures
        told(
            tsdf::mesh_error_text(MeshError::TooSparse(n), threshold),
            text::decimal(n as nat),
        ),
        told(tsdf::mesh_error_text(MeshError::TooSparse(n), threshold), threshold),
        told(tsdf::mesh_error_text(MeshError::TooLarge(n), threshold), text::decimal(n as nat)),
{
    reveal_strlit("Only ");
    reveal_strlit("TSDF grid would need ");
    let number = text::decimal(n as nat);
    let (middle, end) = (
        " gaussians pass the opacity threshold "@,
        " — splat too sparse to mesh. Try lowering --opacity-min."@,
    );
    is_told("Only "@, number, middle + threshold + end);
    assert("Only "@ + number + (middle + threshold + end) =~= "Only "@ + number + middle + threshold
        + end);
    is_told("Only "@ + number + middle, threshold, end);
    is_told("TSDF grid would need "@, number, " GB; lower --grid-res"@);
}

} // verus!
