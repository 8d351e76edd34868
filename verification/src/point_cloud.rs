//! Point clouds from other tools: PLY, as text or binary, and the vertices of
//! OBJ files; and lists of camera positions.
//!
//! Numbers that are written out are floats, so the caller turns words into
//! numbers: one function finds the words of a file, another takes the numbers
//! that they spell. A word that spells no number comes back as `None`.

use crate::ieee;
use crate::ply::{self, parse_header, PlyError, PropValue, VertexLayout};
use crate::splat_ply::{self, rows_fit};
use crate::text::{self, lower_text, same_text, split_fields, utf8_text};
use vstd::prelude::*;

verus! {

/// The grey of points without a colour: the single 0.7.
pub const DEFAULT_GRAY: u32 = 0x3F33_3333;

/// A channel above this single, 1.5, shows that colours run to 255.
pub const CHANNEL_HIGH: u32 = 0x3FC0_0000;

/// Doubles above this round to singles above 1.5.
pub const CHANNEL_HIGH_DOUBLE: u64 = 0x3FF8_0000_1000_0000;

/// The colours that are looked at to tell how far channels run.
pub const CHANNEL_ROWS: usize = 4096;

/// The kind of a point cloud file.
#[derive(Debug, Clone, Copy, PartialEq, Eq, Structural)]
pub enum CloudFormat {
    Ply,
    Obj,
}

/// The kind of file that an extension stands for, in any case of letters.
pub open spec fn format_of(extension: Option<Seq<char>>) -> Option<CloudFormat> {
    match extension {
        Some(e) => if text::lower(e) == "ply"@ {
            Some(CloudFormat::Ply)
        } else if text::lower(e) == "obj"@ {
            Some(CloudFormat::Obj)
        } else {
            None
        },
        None => None,
    }
}

/// The kind of point cloud that a file with the extension holds; of another
/// extension, its lower case.
pub fn cloud_format(extension: &Option<String>) -> (r: Result<CloudFormat, Option<String>>)
    ensures
        match r {
            Ok(f) => format_of(text::view_of(*extension)) == Some(f),
            Err(e) => {
                &&& format_of(text::view_of(*extension)) is None
                &&& text::view_of(e) == (match text::view_of(*extension) {
                    Some(x) => Some(text::lower(x)),
                    None => None,
                })
            },
        },
{
    match extension {
        Some(e) => {
            let l = lower_text(e.as_str());
            if same_text(l.as_str(), "ply") {
                Ok(CloudFormat::Ply)
            } else if same_text(l.as_str(), "obj") {
                Ok(CloudFormat::Obj)
            } else {
                Err(Some(l))
            }
        },
        None => Err(None),
    }
}

/// Where a property with the name stands, letters in any case; -1 if there is
/// none.
pub open spec fn index_named(props: Seq<ply::PropModel>, name: Seq<char>) -> int
    decreases props.len(),
{
    if props.len() == 0 {
        -1
    } else if text::lower(props[0].0) == text::lower(name) {
        0
    } else {
        let rest = index_named(props.skip(1), name);
        if rest < 0 {
            -1
        } else {
            rest + 1
        }
    }
}

proof fn index_named_is(props: Seq<ply::PropModel>, name: Seq<char>, i: int)
    requires
        0 <= i <= props.len(),
        forall|k: int| 0 <= k < i ==> text::lower((#[trigger] props[k]).0) != text::lower(name),
        i < props.len() ==> text::lower(props[i].0) == text::lower(name),
    ensures
        index_named(props, name) == if i < props.len() {
            i
        } else {
            -1
        },
    decreases i,
{
    if i > 0 {
        let rest = props.skip(1);
        assert forall|k: int| 0 <= k < i - 1 implies text::lower((#[trigger] rest[k]).0)
            != text::lower(name) by {
            assert(rest[k] == props[k + 1]);
        }
        index_named_is(rest, name, i - 1);
    }
}

/// Where the property stands that the first name known here names; -1 if there
/// is none.
pub open spec fn index_of_any(props: Seq<ply::PropModel>, names: Seq<Seq<char>>) -> int
    decreases names.len(),
{
    if names.len() == 0 {
        -1
    } else if index_named(props, names[0]) >= 0 {
        index_named(props, names[0])
    } else {
        index_of_any(props, names.skip(1))
    }
}

fn find_named(layout: &VertexLayout, name: &str) -> (found: Option<usize>)
    ensures
        match found {
            Some(i) => index_named(ply::props_view(layout.props@), name@) == i && i
                < layout.props@.len(),
            None => index_named(ply::props_view(layout.props@), name@) == -1,
        },
{
    let want = lower_text(name);
    let ghost v = ply::props_view(layout.props@);
    let n: usize = layout.props.len();
    let mut i: usize = 0;
    while i < n
        invariant
            i <= n,
            n == layout.props@.len(),
            v == ply::props_view(layout.props@),
            want@ == text::lower(name@),
            forall|k: int| 0 <= k < i ==> text::lower((#[trigger] v[k]).0) != text::lower(name@),
        decreases n - i,
    {
        assert(v[i as int].0 == layout.props@[i as int].name@);
        let have = lower_text(layout.props[i].name.as_str());
        if same_text(have.as_str(), want.as_str()) {
            proof {
                index_named_is(v, name@, i as int);
            }
            return Some(i);
        }
        i += 1;
    }
    proof {
        index_named_is(v, name@, n as int);
    }
    None
}

/// The first property that any of up to three names stands for.
fn find_any(layout: &VertexLayout, first: &str, second: &str, third: Option<&str>) -> (found: Option<
    usize,
>)
    ensures
        match found {
            Some(i) => index_of_any(ply::props_view(layout.props@), three(first@, second@, third))
                == i && i < layout.props@.len(),
            None => index_of_any(ply::props_view(layout.props@), three(first@, second@, third))
                == -1,
        },
{
    let ghost names = three(first@, second@, third);
    let ghost props = ply::props_view(layout.props@);
    assert(names[0] == first@ && names[1] == second@);
    assert(names.skip(1)[0] == second@);
    assert(names.skip(1).skip(1) =~= names.skip(2));
    proof {
        reveal_with_fuel(index_of_any, 4);
    }
    match find_named(layout, first) {
        Some(i) => return Some(i),
        None => {},
    }
    match find_named(layout, second) {
        Some(i) => return Some(i),
        None => {},
    }
    match third {
        Some(name) => {
            assert(names.skip(2)[0] == name@);
            assert(names.skip(2).skip(1).len() == 0);
            find_named(layout, name)
        },
        None => {
            assert(names.skip(2).len() == 0);
            None
        },
    }
}

/// Two names, or three.
pub open spec fn three(first: Seq<char>, second: Seq<char>, third: Option<&str>) -> Seq<Seq<char>> {
    match third {
        Some(name) => seq![first, second, name@],
        None => seq![first, second],
    }
}

/// Which properties hold the position, the colour and the normal of a point,
/// by their place in a row.
#[derive(Debug, Clone, Copy)]
pub struct PointColumns {
    pub position: (usize, usize, usize),
    pub color: Option<(usize, usize, usize)>,
    pub normal: Option<(usize, usize, usize)>,
    /// Are colours integers?
    pub integer: bool,
}

/// Three places, if all of them are known.
pub open spec fn all_three(a: int, b: int, c: int) -> Option<(usize, usize, usize)> {
    if a >= 0 && b >= 0 && c >= 0 {
        Some((a as usize, b as usize, c as usize))
    } else {
        None
    }
}

/// The columns of a point cloud, or the coordinate that is missing.
pub open spec fn point_columns(props: Seq<ply::PropModel>) -> Result<PointColumns, Seq<char>> {
    let (x, y, z) = (
        index_named(props, "x"@),
        index_named(props, "y"@),
        index_named(props, "z"@),
    );
    let r = index_of_any(props, seq!["red"@, "r"@, "diffuse_red"@]);
    let g = index_of_any(props, seq!["green"@, "g"@, "diffuse_green"@]);
    let b = index_of_any(props, seq!["blue"@, "b"@, "diffuse_blue"@]);
    let nx = index_of_any(props, seq!["nx"@, "normal_x"@]);
    let ny = index_of_any(props, seq!["ny"@, "normal_y"@]);
    let nz = index_of_any(props, seq!["nz"@, "normal_z"@]);
    if x < 0 {
        Err("x"@)
    } else if y < 0 {
        Err("y"@)
    } else if z < 0 {
        Err("z"@)
    } else {
        Ok(
            PointColumns {
                position: (x as usize, y as usize, z as usize),
                color: all_three(r, g, b),
                normal: all_three(nx, ny, nz),
                integer: r >= 0 && !(props[r].2 is F32 || props[r].2 is F64),
            },
        )
    }
}

/// Are the three places below `width`?
pub open spec fn below(c: (usize, usize, usize), width: int) -> bool {
    c.0 < width && c.1 < width && c.2 < width
}

impl PointColumns {
    /// Is every column one of `width`?
    pub open spec fn within(self, width: int) -> bool {
        &&& below(self.position, width)
        &&& self.color matches Some(c) ==> below(c, width)
        &&& self.normal matches Some(c) ==> below(c, width)
    }
}

fn together(a: Option<usize>, b: Option<usize>, c: Option<usize>) -> (t: Option<
    (usize, usize, usize),
>)
    ensures
        t == (match (a, b, c) {
            (Some(x), Some(y), Some(z)) => Some((x, y, z)),
            _ => None,
        }),
{
    match (a, b, c) {
        (Some(x), Some(y), Some(z)) => Some((x, y, z)),
        _ => None,
    }
}

fn missing(name: &str) -> (e: PlyError<String>)
    ensures
        ply::error_view(e) == PlyError::MissingProperty(name@, Seq::<char>::empty()),
{
    let none = String::new();
    assert(none@ =~= Seq::<char>::empty());
    PlyError::MissingProperty(name.to_owned(), none)
}

fn find_point_columns(layout: &VertexLayout) -> (r: Result<PointColumns, PlyError<String>>)
    ensures
        match r {
            Ok(c) => point_columns(ply::props_view(layout.props@)) == Ok::<
                PointColumns,
                Seq<char>,
            >(c) && c.within(layout.props@.len() as int),
            Err(e) => point_columns(ply::props_view(layout.props@)) matches Err(name)
                && ply::error_view(e) == PlyError::MissingProperty(name, Seq::<char>::empty()),
        },
{
    let ghost props = ply::props_view(layout.props@);
    let x: usize = match find_named(layout, "x") {
        Some(i) => i,
        None => return Err(missing("x")),
    };
    let y: usize = match find_named(layout, "y") {
        Some(i) => i,
        None => return Err(missing("y")),
    };
    let z: usize = match find_named(layout, "z") {
        Some(i) => i,
        None => return Err(missing("z")),
    };
    let r = find_any(layout, "red", "r", Some("diffuse_red"));
    let g = find_any(layout, "green", "g", Some("diffuse_green"));
    let b = find_any(layout, "blue", "b", Some("diffuse_blue"));
    let nx = find_any(layout, "nx", "normal_x", None);
    let ny = find_any(layout, "ny", "normal_y", None);
    let nz = find_any(layout, "nz", "normal_z", None);
    let integer = match r {
        Some(i) => {
            assert(props[i as int].2 == layout.props@[i as int].ty);
            layout.props[i].ty.is_integer()
        },
        None => false,
    };
    Ok(
        PointColumns {
            position: (x, y, z),
            color: together(r, g, b),
            normal: together(nx, ny, nz),
            integer,
        },
    )
}

/// A point as it is stored.
#[derive(Debug, Clone, Copy)]
pub struct RawPoint {
    pub position: (PropValue, PropValue, PropValue),
    pub color: Option<(PropValue, PropValue, PropValue)>,
    pub normal: Option<(PropValue, PropValue, PropValue)>,
}

/// The value of property `i` in the row that begins at `row`.
pub open spec fn binary_cell(
    b: Seq<u8>,
    row: int,
    props: Seq<ply::PropModel>,
    i: usize,
) -> PropValue {
    ply::value_at(props[i as int].2, b, row, props[i as int].1)
}

/// The values of three properties in the row that begins at `row`.
pub open spec fn binary_triple(
    b: Seq<u8>,
    row: int,
    props: Seq<ply::PropModel>,
    c: (usize, usize, usize),
) -> (PropValue, PropValue, PropValue) {
    (
        binary_cell(b, row, props, c.0),
        binary_cell(b, row, props, c.1),
        binary_cell(b, row, props, c.2),
    )
}

/// The point in the row that begins at `row`.
pub open spec fn binary_point(
    b: Seq<u8>,
    row: int,
    props: Seq<ply::PropModel>,
    c: PointColumns,
) -> RawPoint {
    RawPoint {
        position: binary_triple(b, row, props, c.position),
        color: match c.color {
            Some(t) => Some(binary_triple(b, row, props, t)),
            None => None,
        },
        normal: match c.normal {
            Some(t) => Some(binary_triple(b, row, props, t)),
            None => None,
        },
    }
}

/// The points of binary rows.
pub open spec fn binary_points(
    b: Seq<u8>,
    body: int,
    m: ply::HeaderModel,
    c: PointColumns,
) -> Seq<RawPoint> {
    Seq::new(m.count->0, |r: int| binary_point(b, body + r * m.stride, m.props, c))
}

fn read_triple(
    bytes: &Vec<u8>,
    row: usize,
    layout: &VertexLayout,
    c: (usize, usize, usize),
) -> (t: (PropValue, PropValue, PropValue))
    requires
        layout.well_formed(),
        row + layout.stride <= bytes@.len(),
        below(c, layout.props@.len() as int),
    ensures
        t == binary_triple(bytes@, row as int, ply::props_view(layout.props@), c),
{
    let n: usize = bytes.len();
    let ghost v = ply::props_view(layout.props@);
    let (x, y, z) = (&layout.props[c.0], &layout.props[c.1], &layout.props[c.2]);
    assert(v[c.0 as int] == (x.name@, x.offset as int, x.ty));
    assert(v[c.1 as int] == (y.name@, y.offset as int, y.ty));
    assert(v[c.2 as int] == (z.name@, z.offset as int, z.ty));
    (
        x.ty.read(bytes, row + x.offset),
        y.ty.read(bytes, row + y.offset),
        z.ty.read(bytes, row + z.offset),
    )
}

fn read_binary_points(bytes: &Vec<u8>, layout: &VertexLayout, c: &PointColumns) -> (points: Vec<
    RawPoint,
>)
    requires
        layout.well_formed(),
        c.within(layout.props@.len() as int),
        layout.body + layout.count * layout.stride <= bytes@.len(),
    ensures
        points@ == Seq::new(
            layout.count as nat,
            |r: int|
                binary_point(
                    bytes@,
                    layout.body + r * layout.stride,
                    ply::props_view(layout.props@),
                    *c,
                ),
        ),
{
    let n: usize = bytes.len();
    let mut points: Vec<RawPoint> = Vec::new();
    let mut row: usize = layout.body;
    proof {
        splat_ply::rows_take_room(layout.count as int, layout.stride as int);
    }
    for i in 0..layout.count
        invariant
            n == bytes@.len(),
            layout.well_formed(),
            c.within(layout.props@.len() as int),
            layout.body + layout.count * layout.stride <= n,
            row == layout.body + i * layout.stride,
            row <= n,
            points@.len() == i,
            forall|r: int|
                0 <= r < i ==> #[trigger] points@[r] == binary_point(
                    bytes@,
                    layout.body + r * layout.stride,
                    ply::props_view(layout.props@),
                    *c,
                ),
    {
        proof {
            splat_ply::next_row(i as int, layout.count as int, layout.stride as int);
        }
        let position = read_triple(bytes, row, layout, c.position);
        let color = match c.color {
            Some(t) => Some(read_triple(bytes, row, layout, t)),
            None => None,
        };
        let normal = match c.normal {
            Some(t) => Some(read_triple(bytes, row, layout, t)),
            None => None,
        };
        points.push(RawPoint { position, color, normal });
        row += layout.stride;
    }
    assert(points@ =~= Seq::new(
        layout.count as nat,
        |r: int|
            binary_point(
                bytes@,
                layout.body + r * layout.stride,
                ply::props_view(layout.props@),
                *c,
            ),
    ));
    points
}

/// The text of each line; `None` where a line is not UTF-8.
pub open spec fn text_lines(b: Seq<u8>) -> Seq<Option<Seq<char>>> {
    text::rows(b, 10u8).map_values(
        |l: Seq<u8>|
            if vstd::utf8::valid_utf8(l) {
                Some(vstd::utf8::decode_utf8(l))
            } else {
                None
            },
    )
}

/// The words of each line; `None` where a line is not UTF-8.
pub open spec fn word_lines(b: Seq<u8>) -> Seq<Option<Seq<Seq<char>>>> {
    text_lines(b).map_values(
        |l: Option<Seq<char>>|
            match l {
                Some(t) => Some(text::words(t)),
                None => None,
            },
    )
}

/// The lines with their texts as characters.
pub open spec fn optional_views(lines: Seq<Option<String>>) -> Seq<Option<Seq<char>>> {
    lines.map_values(|l: Option<String>| text::view_of(l))
}

/// The lines with their words as characters.
pub open spec fn word_views(lines: Seq<Option<Vec<String>>>) -> Seq<Option<Seq<Seq<char>>>> {
    lines.map_values(
        |l: Option<Vec<String>>|
            match l {
                Some(w) => Some(text::views(w@)),
                None => None,
            },
    )
}

/// The lines of the bytes from `from` on.
fn read_text_lines(bytes: &Vec<u8>, from: usize) -> (out: Vec<Option<String>>)
    requires
        from <= bytes@.len(),
    ensures
        optional_views(out@) == text_lines(bytes@.skip(from as int)),
{
    let n: usize = bytes.len();
    let ghost b = bytes@.skip(from as int);
    let mut out: Vec<Option<String>> = Vec::new();
    let mut current: Vec<u8> = Vec::new();
    let mut within = false;
    for i in from..n
        invariant
            from <= i <= n,
            n == bytes@.len(),
            b == bytes@.skip(from as int),
            i == from ==> !within,
            i > from ==> within == (b[i - from - 1] != 10),
            out@.len() == text::rows(b.take(i - from), 10u8).len() - if within {
                1int
            } else {
                0
            },
            optional_views(out@) == text_lines(b.take(i - from)).take(out@.len() as int),
            within ==> text::rows(b.take(i - from), 10u8).last() == current@,
            !within ==> current@.len() == 0,
    {
        let ghost s = b.take(i - from + 1);
        let ghost before = text::rows(b.take(i - from), 10u8);
        let ghost done = optional_views(out@);
        assert(s.drop_last() =~= b.take(i - from));
        let x: u8 = bytes[i];
        assert(x == s.last());
        if x == 10 {
            proof {
                if !within {
                    assert(current@ =~= Seq::<u8>::empty());
                }
            }
            let line = utf8_text(current);
            out.push(line);
            assert(optional_views(out@) =~= done.push(text::view_of(line)));
            assert(text::rows(s, 10u8).last() == current@);
            assert(optional_views(out@) =~= text_lines(s));
            current = Vec::new();
            within = false;
        } else {
            let ghost old_current = current@;
            current.push(x);
            proof {
                if !within {
                    assert(current@ =~= seq![x]);
                } else {
                    assert(text::rows(s, 10u8) == before.drop_last().push(before.last().push(x)));
                }
                assert(text_lines(s).take(out@.len() as int) =~= done);
            }
            within = true;
        }
    }
    assert(b.take(n - from) =~= b);
    if within {
        let ghost done = optional_views(out@);
        let line = utf8_text(current);
        out.push(line);
        assert(optional_views(out@) =~= done.push(text::view_of(line)));
        assert(optional_views(out@) =~= text_lines(b));
    } else {
        assert(optional_views(out@) =~= text_lines(b));
    }
    out
}

/// The words of the lines of the bytes from `from` on.
fn read_word_lines(bytes: &Vec<u8>, from: usize) -> (out: Vec<Option<Vec<String>>>)
    requires
        from <= bytes@.len(),
    ensures
        word_views(out@) == word_lines(bytes@.skip(from as int)),
{
    let lines = read_text_lines(bytes, from);
    let ghost want = word_lines(bytes@.skip(from as int));
    let mut out: Vec<Option<Vec<String>>> = Vec::new();
    for i in 0..lines.len()
        invariant
            want == word_lines(bytes@.skip(from as int)),
            optional_views(lines@) == text_lines(bytes@.skip(from as int)),
            want.len() == lines@.len(),
            word_views(out@) == want.take(i as int),
    {
        let ghost done = word_views(out@);
        assert(optional_views(lines@)[i as int] == text::view_of(lines@[i as int]));
        let words = match &lines[i] {
            Some(t) => Some(text::split_words(t.as_str())),
            None => None,
        };
        out.push(words);
        assert(word_views(out@) =~= done.push(want[i as int]));
        assert(want.take(i as int + 1) =~= done.push(want[i as int]));
    }
    assert(want.take(lines@.len() as int) =~= want);
    out
}

/// What follows the header of a point cloud: points, or lines that hold them.
#[derive(Debug)]
pub enum PointBody {
    Points(Vec<RawPoint>),
    Lines(Vec<Option<Vec<String>>>),
}

/// A point cloud file, read as far as it can be without spelled-out numbers.
#[derive(Debug)]
pub struct PointFile {
    pub columns: PointColumns,
    /// The number of values in a row.
    pub width: usize,
    /// The number of rows.
    pub count: usize,
    pub body: PointBody,
}

/// Is this what the bytes hold?
pub open spec fn point_file(b: Seq<u8>, f: PointFile) -> bool {
    &&& ply::header_of(b, true) matches Ok((m, body)) && {
        &&& point_columns(m.props) == Ok::<PointColumns, Seq<char>>(f.columns)
        &&& f.width == m.props.len()
        &&& m.count == Some(f.count as nat)
        &&& match f.body {
            PointBody::Points(p) => {
                &&& !m.ascii
                &&& body + f.count * m.stride <= b.len()
                &&& p@ == binary_points(b, body, m, f.columns)
                &&& p@.len() > 0
            },
            PointBody::Lines(l) => m.ascii && word_views(l@) == word_lines(b.skip(body)),
        }
    }
}

/// Why the bytes hold no point cloud.
pub open spec fn point_file_error(b: Seq<u8>) -> Option<PlyError<Seq<char>>> {
    match ply::header_of(b, true) {
        Err(e) => Some(e),
        Ok((m, body)) => match point_columns(m.props) {
            Err(name) => Some(PlyError::MissingProperty(name, Seq::<char>::empty())),
            Ok(_) => if m.ascii {
                None
            } else if body + m.count->0 * m.stride > b.len() {
                Some(PlyError::Truncated)
            } else if m.count->0 == 0 {
                Some(PlyError::Empty)
            } else {
                None
            },
        },
    }
}

/// Reads a point cloud in PLY from its bytes: the points of a binary file, or
/// the words of the lines of a text file.
pub fn read_point_ply(bytes: &Vec<u8>) -> (r: Result<PointFile, PlyError<String>>)
    ensures
        match r {
            Ok(f) => point_file_error(bytes@) is None && point_file(bytes@, f) && f.columns.within(
                f.width as int,
            ),
            Err(e) => point_file_error(bytes@) == Some(ply::error_view(e)),
        },
{
    let layout = match parse_header(bytes, true) {
        Ok(layout) => layout,
        Err(e) => return Err(e),
    };
    let columns = match find_point_columns(&layout) {
        Ok(c) => c,
        Err(e) => return Err(e),
    };
    let width: usize = layout.props.len();
    let count: usize = layout.count;
    if layout.ascii {
        let lines = read_word_lines(bytes, layout.body);
        return Ok(PointFile { columns, width, count, body: PointBody::Lines(lines) });
    }
    let n: usize = bytes.len();
    proof {
        let v = ply::props_view(layout.props@);
        assert(v[columns.position.0 as int].1 + ply::type_size(v[columns.position.0 as int].2)
            <= layout.stride);
    }
    if !rows_fit(layout.stride, layout.count, n - layout.body) {
        return Err(PlyError::Truncated);
    }
    if layout.count == 0 {
        return Err(PlyError::Empty);
    }
    let points = read_binary_points(bytes, &layout, &columns);
    proof {
        let (m, body) = ply::header_of(bytes@, true)->Ok_0;
        assert(points@ =~= binary_points(bytes@, body, m, columns));
    }
    Ok(PointFile { columns, width, count, body: PointBody::Points(points) })
}

/// The numbers among the words of a line.
pub open spec fn numbers(line: Seq<Option<u32>>) -> Seq<u32>
    decreases line.len(),
{
    if line.len() == 0 {
        Seq::empty()
    } else {
        match line.last() {
            Some(v) => numbers(line.drop_last()).push(v),
            None => numbers(line.drop_last()),
        }
    }
}

fn read_numbers(line: &Vec<Option<u32>>) -> (out: Vec<u32>)
    ensures
        out@ == numbers(line@),
{
    let mut out: Vec<u32> = Vec::new();
    for i in 0..line.len()
        invariant
            out@ == numbers(line@.take(i as int)),
    {
        assert(line@.take(i as int + 1).drop_last() =~= line@.take(i as int));
        match line[i] {
            Some(v) => out.push(v),
            None => {},
        }
    }
    assert(line@.take(line@.len() as int) =~= line@);
    out
}

/// Three numbers of a line.
pub open spec fn text_triple(v: Seq<u32>, c: (usize, usize, usize)) -> (
    PropValue,
    PropValue,
    PropValue,
) {
    (
        PropValue::Single(v[c.0 as int]),
        PropValue::Single(v[c.1 as int]),
        PropValue::Single(v[c.2 as int]),
    )
}

/// The point that the numbers of a line stand for.
pub open spec fn text_point(v: Seq<u32>, c: PointColumns) -> RawPoint {
    RawPoint {
        position: text_triple(v, c.position),
        color: match c.color {
            Some(t) => Some(text_triple(v, t)),
            None => None,
        },
        normal: match c.normal {
            Some(t) => Some(text_triple(v, t)),
            None => None,
        },
    }
}

/// The points of the lines: one for each line with at least `width` numbers,
/// up to `count` of them, or all where `count` is zero. A line that is not
/// UTF-8 is an error if it is reached.
pub open spec fn points_of_lines(
    lines: Seq<Option<Vec<Option<u32>>>>,
    c: PointColumns,
    width: int,
    count: int,
) -> Option<Seq<RawPoint>>
    decreases lines.len(),
{
    if lines.len() == 0 {
        Some(Seq::empty())
    } else {
        match points_of_lines(lines.drop_last(), c, width, count) {
            None => None,
            Some(before) => if count > 0 && before.len() == count {
                Some(before)
            } else {
                match lines.last() {
                    None => None,
                    Some(l) => if numbers(l@).len() < width {
                        Some(before)
                    } else {
                        Some(before.push(text_point(numbers(l@), c)))
                    },
                }
            },
        }
    }
}

fn single_triple(v: &Vec<u32>, c: (usize, usize, usize)) -> (t: (PropValue, PropValue, PropValue))
    requires
        below(c, v@.len() as int),
    ensures
        t == text_triple(v@, c),
{
    (PropValue::Single(v[c.0]), PropValue::Single(v[c.1]), PropValue::Single(v[c.2]))
}

/// The points of a text file, from the numbers that its words spell.
pub fn text_points(
    lines: &Vec<Option<Vec<Option<u32>>>>,
    c: &PointColumns,
    width: usize,
    count: usize,
) -> (r: Result<Vec<RawPoint>, PlyError<String>>)
    requires
        c.within(width as int),
    ensures
        match r {
            Ok(p) => points_of_lines(lines@, *c, width as int, count as int) == Some(p@)
                && p@.len() > 0,
            Err(PlyError::NotText) => points_of_lines(lines@, *c, width as int, count as int)
                is None,
            Err(e) => e is Empty && points_of_lines(lines@, *c, width as int, count as int) == Some(
                Seq::<RawPoint>::empty(),
            ),
        },
{
    let mut points: Vec<RawPoint> = Vec::new();
    let mut i: usize = 0;
    let n: usize = lines.len();
    while i < n
        invariant
            i <= n,
            n == lines@.len(),
            c.within(width as int),
            points_of_lines(lines@.take(i as int), *c, width as int, count as int) == Some(points@),
        decreases n - i,
    {
        let ghost upto = lines@.take(i as int + 1);
        assert(upto.drop_last() =~= lines@.take(i as int));
        if !(count > 0 && points.len() == count) {
            match &lines[i] {
                None => {
                    proof {
                        lines_stay_unread(lines@, *c, width as int, count as int, i as int + 1);
                    }
                    return Err(PlyError::NotText);
                },
                Some(line) => {
                    let v = read_numbers(line);
                    if v.len() >= width {
                        let position = single_triple(&v, c.position);
                        let color = match c.color {
                            Some(t) => Some(single_triple(&v, t)),
                            None => None,
                        };
                        let normal = match c.normal {
                            Some(t) => Some(single_triple(&v, t)),
                            None => None,
                        };
                        points.push(RawPoint { position, color, normal });
                    }
                },
            }
        }
        i += 1;
    }
    assert(lines@.take(n as int) =~= lines@);
    if points.len() == 0 {
        assert(points@ =~= Seq::<RawPoint>::empty());
        return Err(PlyError::Empty);
    }
    Ok(points)
}

proof fn lines_stay_unread(
    lines: Seq<Option<Vec<Option<u32>>>>,
    c: PointColumns,
    width: int,
    count: int,
    i: int,
)
    requires
        0 <= i <= lines.len(),
        points_of_lines(lines.take(i), c, width, count) is None,
    ensures
        points_of_lines(lines, c, width, count) is None,
    decreases lines.len(),
{
    if i == lines.len() {
        assert(lines.take(i) =~= lines);
    } else {
        assert(lines.drop_last().take(i) =~= lines.take(i));
        lines_stay_unread(lines.drop_last(), c, width, count, i);
    }
}

/// No more points are read than the header declares.
pub proof fn declared_count_is_kept(
    lines: Seq<Option<Vec<Option<u32>>>>,
    c: PointColumns,
    width: int,
    count: int,
)
    requires
        count > 0,
    ensures
        points_of_lines(lines, c, width, count) matches Some(p) ==> p.len() <= count,
    decreases lines.len(),
{
    if lines.len() > 0 {
        declared_count_is_kept(lines.drop_last(), c, width, count);
    }
}

/// The words behind the leading `v` of each vertex line, in order.
pub open spec fn vertex_words(lines: Seq<Seq<Seq<char>>>) -> Seq<Seq<Seq<char>>>
    decreases lines.len(),
{
    if lines.len() == 0 {
        Seq::empty()
    } else {
        let before = vertex_words(lines.drop_last());
        let w = lines.last();
        if w.len() > 0 && w[0] == "v"@ {
            before.push(w.skip(1))
        } else {
            before
        }
    }
}

/// Is every line UTF-8?
pub open spec fn all_text(lines: Seq<Option<Seq<char>>>) -> bool {
    forall|i: int| 0 <= i < lines.len() ==> (#[trigger] lines[i]) is Some
}

/// The texts of lines that are all UTF-8.
pub open spec fn texts(lines: Seq<Option<Seq<char>>>) -> Seq<Seq<char>> {
    lines.map_values(|l: Option<Seq<char>>| l->0)
}

/// The words of several texts.
pub open spec fn words_of(texts: Seq<Seq<char>>) -> Seq<Seq<Seq<char>>> {
    texts.map_values(|t: Seq<char>| text::words(t))
}

/// The words of several lines as characters.
pub open spec fn lists_view(lines: Seq<Vec<String>>) -> Seq<Seq<Seq<char>>> {
    lines.map_values(|l: Vec<String>| text::views(l@))
}

fn tail_words(w: &Vec<String>) -> (rest: Vec<String>)
    requires
        w@.len() > 0,
    ensures
        text::views(rest@) == text::views(w@).skip(1),
{
    let mut rest: Vec<String> = Vec::new();
    for i in 1..w.len()
        invariant
            1 <= i <= w@.len(),
            text::views(rest@) == text::views(w@).subrange(1, i as int),
    {
        let ghost done = text::views(rest@);
        rest.push(w[i].clone());
        assert(text::views(rest@) =~= done.push(w@[i as int]@));
        assert(text::views(w@).subrange(1, i as int + 1) =~= done.push(text::views(w@)[i as int]));
    }
    assert(text::views(rest@) =~= text::views(w@).skip(1));
    rest
}

/// The words behind the leading `v` of each vertex line of an OBJ file; an
/// error if a line is not UTF-8.
pub fn obj_vertex_words(bytes: &Vec<u8>) -> (r: Result<Vec<Vec<String>>, PlyError<String>>)
    ensures
        match r {
            Ok(w) => all_text(text_lines(bytes@)) && lists_view(w@) == vertex_words(
                words_of(texts(text_lines(bytes@))),
            ),
            Err(e) => e is NotText && !all_text(text_lines(bytes@)),
        },
{
    let lines = read_text_lines(bytes, 0);
    assert(bytes@.skip(0) =~= bytes@);
    let ghost want = text_lines(bytes@);
    let ghost all = words_of(texts(want));
    let mut out: Vec<Vec<String>> = Vec::new();
    assert(lists_view(out@) =~= Seq::<Seq<Seq<char>>>::empty());
    for i in 0..lines.len()
        invariant
            want == text_lines(bytes@),
            optional_views(lines@) == want,
            all == words_of(texts(want)),
            forall|k: int| 0 <= k < i ==> (#[trigger] want[k]) is Some,
            lists_view(out@) == vertex_words(all.take(i as int)),
    {
        assert(all.take(i as int + 1).drop_last() =~= all.take(i as int));
        assert(want[i as int] == text::view_of(lines@[i as int]));
        match &lines[i] {
            None => return Err(PlyError::NotText),
            Some(t) => {
                let w = text::split_words(t.as_str());
                assert(all[i as int] == text::views(w@));
                assert(w@.len() > 0 ==> text::views(w@)[0] == w@[0]@);
                if w.len() > 0 && same_text(w[0].as_str(), "v") {
                    let ghost done = lists_view(out@);
                    let rest = tail_words(&w);
                    out.push(rest);
                    assert(lists_view(out@) =~= done.push(text::views(rest@)));
                }
            },
        }
    }
    assert(all.take(lines@.len() as int) =~= all);
    Ok(out)
}

/// The grey of points without a colour.
pub open spec fn gray() -> (PropValue, PropValue, PropValue) {
    (
        PropValue::Single(DEFAULT_GRAY),
        PropValue::Single(DEFAULT_GRAY),
        PropValue::Single(DEFAULT_GRAY),
    )
}

/// The vertices among lines of numbers: those with three or more, with the
/// colour that follows the position where there are six.
pub open spec fn vertices_of(lines: Seq<Vec<Option<u32>>>) -> Seq<RawPoint>
    decreases lines.len(),
{
    if lines.len() == 0 {
        Seq::empty()
    } else {
        let before = vertices_of(lines.drop_last());
        let v = numbers(lines.last()@);
        if v.len() < 3 {
            before
        } else {
            before.push(
                RawPoint {
                    position: text_triple(v, (0, 1, 2)),
                    color: Some(
                        if v.len() >= 6 {
                            text_triple(v, (3, 4, 5))
                        } else {
                            gray()
                        },
                    ),
                    normal: None,
                },
            )
        }
    }
}

/// Does a vertex line carry a colour?
pub open spec fn any_colored(lines: Seq<Vec<Option<u32>>>) -> bool {
    exists|i: int| 0 <= i < lines.len() && numbers((#[trigger] lines[i])@).len() >= 6
}

/// The point without its colour.
pub open spec fn uncolored(p: RawPoint) -> RawPoint {
    RawPoint { color: None, ..p }
}

/// The points of an OBJ file: without colours where no vertex has one.
pub open spec fn obj_points_of(lines: Seq<Vec<Option<u32>>>) -> Seq<RawPoint> {
    if any_colored(lines) {
        vertices_of(lines)
    } else {
        vertices_of(lines).map_values(|p: RawPoint| uncolored(p))
    }
}

/// The points of an OBJ file, from the numbers on its vertex lines.
pub fn obj_points(lines: &Vec<Vec<Option<u32>>>) -> (r: Result<Vec<RawPoint>, PlyError<String>>)
    ensures
        match r {
            Ok(p) => p@ == obj_points_of(lines@) && p@.len() > 0,
            Err(e) => e is Empty && obj_points_of(lines@).len() == 0,
        },
{
    let mut points: Vec<RawPoint> = Vec::new();
    let mut colored = false;
    for i in 0..lines.len()
        invariant
            points@ == vertices_of(lines@.take(i as int)),
            colored == any_colored(lines@.take(i as int)),
    {
        let ghost upto = lines@.take(i as int + 1);
        assert(upto.drop_last() =~= lines@.take(i as int));
        assert(upto.last() == lines@[i as int]);
        assert(forall|k: int| 0 <= k < i ==> upto[k] == lines@.take(i as int)[k]);
        let v = read_numbers(&lines[i]);
        if v.len() >= 3 {
            let color = if v.len() >= 6 {
                colored = true;
                assert(numbers(upto[i as int]@).len() >= 6);
                single_triple(&v, (3, 4, 5))
            } else {
                let g = PropValue::Single(DEFAULT_GRAY);
                (g, g, g)
            };
            points.push(
                RawPoint {
                    position: single_triple(&v, (0, 1, 2)),
                    color: Some(color),
                    normal: None,
                },
            );
        }
        proof {
            if any_colored(lines@.take(i as int)) {
                let k = choose|k: int|
                    0 <= k < i && numbers((#[trigger] lines@.take(i as int)[k])@).len() >= 6;
                assert(numbers(upto[k]@).len() >= 6);
            }
            if any_colored(upto) {
                let k = choose|k: int|
                    0 <= k < i + 1 && numbers((#[trigger] upto[k])@).len() >= 6;
                if k < i {
                    assert(numbers(lines@.take(i as int)[k]@).len() >= 6);
                }
            }
        }
    }
    assert(lines@.take(lines@.len() as int) =~= lines@);
    if points.len() == 0 {
        return Err(PlyError::Empty);
    }
    if colored {
        return Ok(points);
    }
    let mut plain: Vec<RawPoint> = Vec::new();
    for i in 0..points.len()
        invariant
            plain@.len() == i,
            forall|k: int| 0 <= k < i ==> #[trigger] plain@[k] == uncolored(points@[k]),
    {
        plain.push(RawPoint { position: points[i].position, color: None, normal: points[i].normal });
    }
    assert(plain@ =~= points@.map_values(|p: RawPoint| uncolored(p)));
    Ok(plain)
}

/// Is the value, taken as a single, above 1.5?
pub open spec fn above_unit(v: PropValue) -> bool {
    match v {
        PropValue::Single(bits) => ieee::less(CHANNEL_HIGH, bits),
        PropValue::Double(bits) => CHANNEL_HIGH_DOUBLE < bits <= splat_ply::DOUBLE_INFINITY,
        PropValue::Int(i) => i > 1,
    }
}

/// Does a channel of the point's colour lie above 1.5?
pub open spec fn bright(p: RawPoint) -> bool {
    p.color matches Some(c) && (above_unit(c.0) || above_unit(c.1) || above_unit(c.2))
}

/// Do the channels run to 255, so that they have to be scaled: are they
/// integers, or does one of the first colours lie above 1.5?
pub open spec fn byte_channels(points: Seq<RawPoint>, integer: bool) -> bool {
    integer || exists|i: int| 0 <= i < points.len() && i < CHANNEL_ROWS && bright(#[trigger] points[i])
}

fn is_above_unit(v: &PropValue) -> (b: bool)
    ensures
        b == above_unit(*v),
{
    match *v {
        PropValue::Single(bits) => ieee::is_less(CHANNEL_HIGH, bits),
        PropValue::Double(bits) => CHANNEL_HIGH_DOUBLE < bits && bits <= splat_ply::DOUBLE_INFINITY,
        PropValue::Int(i) => i > 1,
    }
}

/// Do the channels of the colours run to 255?
pub fn channels_run_to_255(points: &Vec<RawPoint>, integer: bool) -> (b: bool)
    ensures
        b == byte_channels(points@, integer),
{
    if integer {
        return true;
    }
    let n: usize = points.len();
    let mut i: usize = 0;
    while i < n && i < CHANNEL_ROWS
        invariant
            i <= n,
            i <= CHANNEL_ROWS,
            n == points@.len(),
            forall|k: int| 0 <= k < i ==> !bright(#[trigger] points@[k]),
        decreases n - i,
    {
        let found = match &points[i].color {
            Some(c) => is_above_unit(&c.0) || is_above_unit(&c.1) || is_above_unit(&c.2),
            None => false,
        };
        assert(found == bright(points@[i as int]));
        if found {
            return true;
        }
        i += 1;
    }
    false
}

/// Is the line blank or a comment?
pub open spec fn passed_over(line: Seq<char>) -> bool {
    let t = text::trim_start(line);
    t.len() == 0 || t[0] == '#'
}

/// The fields of each line that is neither blank nor a comment.
pub open spec fn camera_fields_of(lines: Seq<Seq<char>>) -> Seq<Seq<Seq<char>>>
    decreases lines.len(),
{
    if lines.len() == 0 {
        Seq::empty()
    } else {
        let before = camera_fields_of(lines.drop_last());
        if passed_over(lines.last()) {
            before
        } else {
            before.push(text::fields(lines.last(), true))
        }
    }
}

/// The fields of each line of a list of cameras that is neither blank nor a
/// comment; an error if a line is not UTF-8.
pub fn camera_fields(bytes: &Vec<u8>) -> (r: Result<Vec<Vec<String>>, PlyError<String>>)
    ensures
        match r {
            Ok(w) => all_text(text_lines(bytes@)) && lists_view(w@) == camera_fields_of(
                texts(text_lines(bytes@)),
            ),
            Err(e) => e is NotText && !all_text(text_lines(bytes@)),
        },
{
    let lines = read_text_lines(bytes, 0);
    assert(bytes@.skip(0) =~= bytes@);
    let ghost want = text_lines(bytes@);
    let ghost all = texts(want);
    let mut out: Vec<Vec<String>> = Vec::new();
    assert(lists_view(out@) =~= Seq::<Seq<Seq<char>>>::empty());
    for i in 0..lines.len()
        invariant
            want == text_lines(bytes@),
            optional_views(lines@) == want,
            all == texts(want),
            forall|k: int| 0 <= k < i ==> (#[trigger] want[k]) is Some,
            lists_view(out@) == camera_fields_of(all.take(i as int)),
    {
        assert(all.take(i as int + 1).drop_last() =~= all.take(i as int));
        assert(want[i as int] == text::view_of(lines@[i as int]));
        match &lines[i] {
            None => return Err(PlyError::NotText),
            Some(t) => {
                assert(all[i as int] == t@);
                let first = text::first_visible(t.as_str());
                let skip = match first {
                    None => true,
                    Some(c) => c == '#',
                };
                if !skip {
                    let ghost done = lists_view(out@);
                    let f = split_fields(t.as_str(), true);
                    out.push(f);
                    assert(lists_view(out@) =~= done.push(text::views(f@)));
                }
            },
        }
    }
    assert(all.take(lines@.len() as int) =~= all);
    Ok(out)
}

/// The finite numbers among the fields of a line.
pub open spec fn finite_numbers(line: Seq<Option<u32>>) -> Seq<u32>
    decreases line.len(),
{
    if line.len() == 0 {
        Seq::empty()
    } else {
        match line.last() {
            Some(v) => if ieee::finite(v) {
                finite_numbers(line.drop_last()).push(v)
            } else {
                finite_numbers(line.drop_last())
            },
            None => finite_numbers(line.drop_last()),
        }
    }
}

/// The first three finite numbers of each line that has as many.
pub open spec fn centers_of(lines: Seq<Vec<Option<u32>>>) -> Seq<(u32, u32, u32)>
    decreases lines.len(),
{
    if lines.len() == 0 {
        Seq::empty()
    } else {
        let before = centers_of(lines.drop_last());
        let v = finite_numbers(lines.last()@);
        if v.len() >= 3 {
            before.push((v[0], v[1], v[2]))
        } else {
            before
        }
    }
}

/// The positions of cameras, from the numbers that the fields of a list spell;
/// `None` if there is none.
pub fn camera_positions(lines: &Vec<Vec<Option<u32>>>) -> (r: Option<Vec<(u32, u32, u32)>>)
    ensures
        match r {
            Some(c) => c@ == centers_of(lines@) && c@.len() > 0,
            None => centers_of(lines@).len() == 0,
        },
{
    let mut centers: Vec<(u32, u32, u32)> = Vec::new();
    for i in 0..lines.len()
        invariant
            centers@ == centers_of(lines@.take(i as int)),
    {
        assert(lines@.take(i as int + 1).drop_last() =~= lines@.take(i as int));
        let line = &lines[i];
        let mut v: Vec<u32> = Vec::new();
        for j in 0..line.len()
            invariant
                v@ == finite_numbers(line@.take(j as int)),
        {
            assert(line@.take(j as int + 1).drop_last() =~= line@.take(j as int));
            match line[j] {
                Some(x) => {
                    if ieee::is_finite(x) {
                        v.push(x);
                    }
                },
                None => {},
            }
        }
        assert(line@.take(line@.len() as int) =~= line@);
        if v.len() >= 3 {
            centers.push((v[0], v[1], v[2]));
        }
    }
    assert(lines@.take(lines@.len() as int) =~= lines@);
    if centers.len() == 0 {
        None
    } else {
        Some(centers)
    }
}

/// Every camera position is finite.
pub proof fn camera_positions_are_finite(lines: Seq<Vec<Option<u32>>>, k: int)
    requires
        0 <= k < centers_of(lines).len(),
    ensures
        ieee::finite(centers_of(lines)[k].0),
        ieee::finite(centers_of(lines)[k].1),
        ieee::finite(centers_of(lines)[k].2),
    decreases lines.len(),
{
    let before = centers_of(lines.drop_last());
    if k < before.len() {
        camera_positions_are_finite(lines.drop_last(), k);
    } else {
        finite_numbers_are_finite(lines.last()@, 0);
        finite_numbers_are_finite(lines.last()@, 1);
        finite_numbers_are_finite(lines.last()@, 2);
    }
}

proof fn finite_numbers_are_finite(line: Seq<Option<u32>>, k: int)
    requires
        0 <= k < finite_numbers(line).len(),
    ensures
        ieee::finite(finite_numbers(line)[k]),
    decreases line.len(),
{
    let before = finite_numbers(line.drop_last());
    if k < before.len() {
        finite_numbers_are_finite(line.drop_last(), k);
    }
}

/// Coloured points, with normals if the file has them. Numbers are the bits of
/// singles.
#[derive(Debug)]
pub struct PointCloud {
    pub positions: Vec<[u32; 3]>,
    pub colors: Vec<[u32; 3]>,
    pub normals: Option<Vec<[u32; 3]>>,
}

impl PointCloud {
    /// The number of points.
    pub fn len(&self) -> (n: usize)
        ensures
            n == self.positions@.len(),
    {
        self.positions.len()
    }

    /// Are there no points?
    pub fn is_empty(&self) -> (b: bool)
        ensures
            b == (self.positions@.len() == 0),
    {
        self.positions.len() == 0
    }
}

/// A point in singles, its channels scaled.
#[derive(Debug, Clone, Copy)]
pub struct SinglePoint {
    pub position: [u32; 3],
    pub color: Option<[u32; 3]>,
    pub normal: Option<[u32; 3]>,
}

/// The colour of a point in a cloud: its channels held between zero and one, or
/// grey where it has none.
pub open spec fn cloud_color(p: SinglePoint) -> Seq<u32> {
    match p.color {
        Some(c) => c@.map_values(|v: u32| ieee::clamped(v)),
        None => seq![DEFAULT_GRAY, DEFAULT_GRAY, DEFAULT_GRAY],
    }
}

/// Are there points, and does each have a normal?
pub open spec fn all_have_normals(points: Seq<SinglePoint>) -> bool {
    points.len() > 0 && forall|i: int|
        0 <= i < points.len() ==> (#[trigger] points[i]).normal is Some
}

/// Are these the points as a cloud?
pub open spec fn is_cloud(points: Seq<SinglePoint>, c: PointCloud) -> bool {
    &&& c.positions@ == points.map_values(|p: SinglePoint| p.position)
    &&& c.colors@.len() == points.len()
    &&& forall|i: int| 0 <= i < points.len() ==> (#[trigger] c.colors@[i])@ == cloud_color(points[i])
    &&& match c.normals {
        Some(n) => all_have_normals(points) && n@ == points.map_values(
            |p: SinglePoint| p.normal->0,
        ),
        None => !all_have_normals(points),
    }
}

impl PointCloud {
    /// Does every point have its colour, with channels between zero and one, and
    /// a normal if there are any?
    pub open spec fn well_formed(self) -> bool {
        &&& self.colors@.len() == self.positions@.len()
        &&& self.normals matches Some(n) ==> n@.len() == self.positions@.len()
        &&& forall|i: int, k: int|
            #![trigger self.colors@[i]@[k]]
            0 <= i < self.colors@.len() && 0 <= k < 3 ==> ieee::nan(self.colors@[i]@[k])
                || ieee::in_unit(self.colors@[i]@[k])
    }

    /// The cloud of the points.
    pub fn of(points: &Vec<SinglePoint>) -> (c: PointCloud)
        ensures
            is_cloud(points@, c),
            c.well_formed(),
    {
        let n: usize = points.len();
        let mut positions: Vec<[u32; 3]> = Vec::new();
        let mut colors: Vec<[u32; 3]> = Vec::new();
        let mut normals: Vec<[u32; 3]> = Vec::new();
        let mut complete = n > 0;
        for i in 0..n
            invariant
                n == points@.len(),
                positions@.len() == i,
                colors@.len() == i,
                forall|k: int| 0 <= k < i ==> #[trigger] positions@[k] == points@[k].position,
                forall|k: int| 0 <= k < i ==> (#[trigger] colors@[k])@ == cloud_color(points@[k]),
                complete == (n > 0 && forall|k: int|
                    0 <= k < i ==> (#[trigger] points@[k]).normal is Some),
                complete ==> normals@.len() == i && forall|k: int|
                    0 <= k < i ==> #[trigger] normals@[k] == points@[k].normal->0,
        {
            let p = points[i];
            positions.push(p.position);
            let color: [u32; 3] = match p.color {
                Some(c) => [
                    ieee::clamp_to_unit(c[0]),
                    ieee::clamp_to_unit(c[1]),
                    ieee::clamp_to_unit(c[2]),
                ],
                None => [DEFAULT_GRAY, DEFAULT_GRAY, DEFAULT_GRAY],
            };
            assert(color@ =~= cloud_color(points@[i as int]));
            colors.push(color);
            match p.normal {
                Some(v) => normals.push(v),
                None => {
                    assert(points@[i as int].normal is None);
                    complete = false;
                },
            }
        }
        let c = PointCloud {
            positions,
            colors,
            normals: if complete {
                Some(normals)
            } else {
                None
            },
        };
        proof {
            assert(c.positions@ =~= points@.map_values(|p: SinglePoint| p.position));
            if c.normals is Some {
                assert(c.normals->0@ =~= points@.map_values(|p: SinglePoint| p.normal->0));
            }
            assert forall|i: int, k: int|
                #![trigger c.colors@[i]@[k]]
                0 <= i < c.colors@.len() && 0 <= k < 3 implies ieee::nan(c.colors@[i]@[k])
                || ieee::in_unit(c.colors@[i]@[k]) by {
                assert(c.colors@[i]@[k] == cloud_color(points@[i])[k]);
            }
        }
        c
    }
}

} // verus!
