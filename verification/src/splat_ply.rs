//! Trained gaussian splats in the usual binary PLY layout.
//!
//! What is read here is what the file stores. Turning stored opacities, scales
//! and colours into linear units is arithmetic on floats and is left to the
//! caller, who is told whether the file has done it already.

use crate::ieee;
use crate::ply::{self, parse_header, PlyError, PropType, PropValue, VertexLayout};
use crate::text;
use vstd::prelude::*;

verus! {

/// The magnitude from which a double rounds to a single infinity.
pub const DOUBLE_OVERFLOW: u64 = 0x47EF_FFFF_F000_0000;

/// The single just below zero under which an opacity cannot be linear: -0.01.
pub const OPACITY_LOW: u32 = 0xBC23_D70A;

/// The single just above one over which an opacity cannot be linear: 1.01.
pub const OPACITY_HIGH: u32 = 0x3F81_47AE;

/// Doubles below minus this round to singles below -0.01.
pub const OPACITY_LOW_DOUBLE: u64 = 0x3F84_7AE1_5000_0000;

/// Doubles above this round to singles above 1.01.
pub const OPACITY_HIGH_DOUBLE: u64 = 0x3FF0_28F5_D000_0000;

/// The sign bit of a double.
pub const DOUBLE_SIGN: u64 = 0x8000_0000_0000_0000;

/// The bits of the positive infinity of doubles.
pub const DOUBLE_INFINITY: u64 = 0x7FF0_0000_0000_0000;

/// The bits of a double without its sign.
pub open spec fn double_magnitude(bits: u64) -> int {
    if bits >= DOUBLE_SIGN {
        bits - DOUBLE_SIGN
    } else {
        bits as int
    }
}

/// Is the value, taken as a single, finite?
pub open spec fn finite_single(v: PropValue) -> bool {
    match v {
        PropValue::Single(bits) => ieee::finite(bits),
        PropValue::Double(bits) => double_magnitude(bits) < DOUBLE_OVERFLOW,
        PropValue::Int(_) => true,
    }
}

/// Does the value, taken as a single, lie outside -0.01 to 1.01?
pub open spec fn beyond_unit(v: PropValue) -> bool {
    match v {
        PropValue::Single(bits) => ieee::less(bits, OPACITY_LOW) || ieee::less(OPACITY_HIGH, bits),
        PropValue::Double(bits) => {
            let m = double_magnitude(bits);
            m <= DOUBLE_INFINITY && if bits >= DOUBLE_SIGN {
                m > OPACITY_LOW_DOUBLE
            } else {
                m > OPACITY_HIGH_DOUBLE
            }
        },
        PropValue::Int(i) => i < 0 || i > 1,
    }
}

fn is_finite_single(v: &PropValue) -> (b: bool)
    ensures
        b == finite_single(*v),
{
    match *v {
        PropValue::Single(bits) => ieee::is_finite(bits),
        PropValue::Double(bits) => {
            let m: u64 = if bits >= DOUBLE_SIGN {
                bits - DOUBLE_SIGN
            } else {
                bits
            };
            m < DOUBLE_OVERFLOW
        },
        PropValue::Int(_) => true,
    }
}

fn is_beyond_unit(v: &PropValue) -> (b: bool)
    ensures
        b == beyond_unit(*v),
{
    match *v {
        PropValue::Single(bits) => ieee::is_less(bits, OPACITY_LOW) || ieee::is_less(
            OPACITY_HIGH,
            bits,
        ),
        PropValue::Double(bits) => {
            if bits >= DOUBLE_SIGN {
                let m: u64 = bits - DOUBLE_SIGN;
                m <= DOUBLE_INFINITY && m > OPACITY_LOW_DOUBLE
            } else {
                bits <= DOUBLE_INFINITY && bits > OPACITY_HIGH_DOUBLE
            }
        },
        PropValue::Int(i) => i < 0 || i > 1,
    }
}

/// Where a property stands in a row, and its type.
pub type Column = (int, PropType);

/// The properties that a splat must have, in the order in which they are asked
/// for.
pub open spec fn needed_names() -> Seq<Seq<char>> {
    seq![
        "x"@,
        "y"@,
        "z"@,
        "opacity"@,
        "scale_0"@,
        "scale_1"@,
        "scale_2"@,
        "rot_0"@,
        "rot_1"@,
        "rot_2"@,
        "rot_3"@,
    ]
}

/// The columns with these names, or the first name that is missing.
pub open spec fn columns(props: Seq<ply::PropModel>, names: Seq<Seq<char>>) -> Result<
    Seq<Column>,
    Seq<char>,
>
    decreases names.len(),
{
    if names.len() == 0 {
        Ok(Seq::empty())
    } else {
        match columns(props, names.drop_last()) {
            Err(missing) => Err(missing),
            Ok(before) => match ply::find_prop(props, names.last()) {
                Some(column) => Ok(before.push(column)),
                None => Err(names.last()),
            },
        }
    }
}

/// A splat as it is stored: its position, its opacity, its scale along each
/// axis, its rotation with the scalar first, and the constant term of its
/// colour if the file has one.
#[derive(Debug, Clone, Copy)]
pub struct RawSplat {
    pub position: (PropValue, PropValue, PropValue),
    pub opacity: PropValue,
    pub scale: (PropValue, PropValue, PropValue),
    pub rotation: (PropValue, PropValue, PropValue, PropValue),
    pub color: Option<(PropValue, PropValue, PropValue)>,
}

/// The value in a column of the row that begins at `row`.
pub open spec fn cell(b: Seq<u8>, row: int, c: Column) -> PropValue {
    ply::value_at(c.1, b, row, c.0)
}

/// The columns of the colour, if the file has all three.
pub open spec fn color_columns(props: Seq<ply::PropModel>) -> Option<(Column, Column, Column)> {
    match (
        ply::find_prop(props, "f_dc_0"@),
        ply::find_prop(props, "f_dc_1"@),
        ply::find_prop(props, "f_dc_2"@),
    ) {
        (Some(r), Some(g), Some(b)) => Some((r, g, b)),
        _ => None,
    }
}

/// The splat in the row that begins at `row`.
pub open spec fn splat_at(
    b: Seq<u8>,
    row: int,
    c: Seq<Column>,
    color: Option<(Column, Column, Column)>,
) -> RawSplat {
    RawSplat {
        position: (cell(b, row, c[0]), cell(b, row, c[1]), cell(b, row, c[2])),
        opacity: cell(b, row, c[3]),
        scale: (cell(b, row, c[4]), cell(b, row, c[5]), cell(b, row, c[6])),
        rotation: (cell(b, row, c[7]), cell(b, row, c[8]), cell(b, row, c[9]), cell(b, row, c[10])),
        color: match color {
            Some((r, g, bl)) => Some((cell(b, row, r), cell(b, row, g), cell(b, row, bl))),
            None => None,
        },
    }
}

/// Is every coordinate of the splat a finite single?
pub open spec fn placed(s: RawSplat) -> bool {
    finite_single(s.position.0) && finite_single(s.position.1) && finite_single(s.position.2)
}

/// The placed splats among the first `n` rows, in order.
pub open spec fn placed_splats(
    b: Seq<u8>,
    body: int,
    stride: int,
    n: int,
    c: Seq<Column>,
    color: Option<(Column, Column, Column)>,
) -> Seq<RawSplat>
    decreases n,
{
    if n <= 0 {
        Seq::empty()
    } else {
        let before = placed_splats(b, body, stride, n - 1, c, color);
        let s = splat_at(b, body + (n - 1) * stride, c, color);
        if placed(s) {
            before.push(s)
        } else {
            before
        }
    }
}

/// The rows that are looked at to tell how opacities are stored.
pub const OPACITY_ROWS: usize = 10_000;

/// Are the opacities, and with them the scales, stored in linear units: does no
/// opacity of the first rows lie outside -0.01 to 1.01?
pub open spec fn linear_units(
    b: Seq<u8>,
    body: int,
    stride: int,
    count: int,
    opacity: Column,
) -> bool {
    forall|r: int|
        0 <= r < count && r < OPACITY_ROWS ==> !beyond_unit(
            #[trigger] cell(b, body + r * stride, opacity),
        )
}

/// What a splat file holds: its placed splats, and whether they are stored in
/// linear units.
pub open spec fn splat_file(b: Seq<u8>) -> Result<(Seq<RawSplat>, bool), PlyError<Seq<char>>> {
    match ply::header_of(b, false) {
        Err(e) => Err(e),
        Ok((m, body)) => match columns(m.props, needed_names()) {
            Err(name) => Err(
                PlyError::MissingProperty(name, text::joined(ply::prop_names(m.props), ", "@)),
            ),
            Ok(c) => {
                let count = m.count->0 as int;
                let splats = placed_splats(b, body, m.stride, count, c, color_columns(m.props));
                if body + count * m.stride > b.len() {
                    Err(PlyError::Truncated)
                } else if splats.len() == 0 {
                    Err(PlyError::Empty)
                } else {
                    Ok((splats, linear_units(b, body, m.stride, count, c[3])))
                }
            },
        },
    }
}

/// The splats of a file as they are stored.
#[derive(Debug)]
pub struct RawCloud {
    pub splats: Vec<RawSplat>,
    /// Are opacities and scales stored in linear units?
    pub linear: bool,
}

fn needed() -> (names: Vec<String>)
    ensures
        text::views(names@) == needed_names(),
{
    let mut names: Vec<String> = Vec::new();
    names.push("x".to_owned());
    names.push("y".to_owned());
    names.push("z".to_owned());
    names.push("opacity".to_owned());
    names.push("scale_0".to_owned());
    names.push("scale_1".to_owned());
    names.push("scale_2".to_owned());
    names.push("rot_0".to_owned());
    names.push("rot_1".to_owned());
    names.push("rot_2".to_owned());
    names.push("rot_3".to_owned());
    assert(text::views(names@) =~= needed_names());
    names
}

/// The columns as mathematical integers.
spec fn columns_view(c: Seq<(usize, PropType)>) -> Seq<Column> {
    c.map_values(|x: (usize, PropType)| (x.0 as int, x.1))
}

proof fn columns_of_prefix(props: Seq<ply::PropModel>, names: Seq<Seq<char>>, i: int)
    requires
        0 <= i <= names.len(),
        columns(props, names.take(i)) is Err,
    ensures
        columns(props, names) == columns(props, names.take(i)),
    decreases names.len(),
{
    if i == names.len() {
        assert(names.take(i) =~= names);
    } else {
        assert(names.drop_last().take(i) =~= names.take(i));
        columns_of_prefix(props, names.drop_last(), i);
    }
}

fn find_columns(layout: &VertexLayout) -> (r: Result<Vec<(usize, PropType)>, PlyError<String>>)
    requires
        layout.well_formed(),
    ensures
        match r {
            Ok(c) => {
                &&& columns(ply::props_view(layout.props@), needed_names()) == Ok::<
                    Seq<Column>,
                    Seq<char>,
                >(columns_view(c@))
                &&& c@.len() == 11
                &&& forall|k: int|
                    0 <= k < 11 ==> (#[trigger] c@[k]).0 + ply::type_size(c@[k].1) <= layout.stride
            },
            Err(e) => columns(ply::props_view(layout.props@), needed_names()) matches Err(name)
                && ply::error_view(e) == PlyError::MissingProperty(
                name,
                text::joined(ply::prop_names(ply::props_view(layout.props@)), ", "@),
            ),
        },
{
    let names = needed();
    let ghost props = ply::props_view(layout.props@);
    let ghost want = text::views(names@);
    let mut c: Vec<(usize, PropType)> = Vec::new();
    assert(want.take(0) =~= Seq::<Seq<char>>::empty());
    assert(columns_view(c@) =~= Seq::<Column>::empty());
    for i in 0..names.len()
        invariant
            layout.well_formed(),
            props == ply::props_view(layout.props@),
            want == text::views(names@),
            want == needed_names(),
            c@.len() == i,
            columns(props, want.take(i as int)) == Ok::<Seq<Column>, Seq<char>>(columns_view(c@)),
            forall|k: int|
                0 <= k < i ==> (#[trigger] c@[k]).0 + ply::type_size(c@[k].1) <= layout.stride,
    {
        let ghost next = want.take(i as int + 1);
        assert(next.drop_last() =~= want.take(i as int));
        assert(next.last() == names@[i as int]@);
        match layout.require(names[i].as_str()) {
            Ok(column) => {
                let ghost before = columns_view(c@);
                c.push(column);
                assert(columns_view(c@) =~= before.push((column.0 as int, column.1)));
            },
            Err(e) => {
                proof {
                    columns_of_prefix(props, want, i as int + 1);
                }
                return Err(e);
            },
        }
    }
    assert(want.take(names@.len() as int) =~= want);
    assert(names@.len() == want.len());
    Ok(c)
}

/// A colour's columns as mathematical integers.
spec fn color_view(
    c: Option<((usize, PropType), (usize, PropType), (usize, PropType))>,
) -> Option<(Column, Column, Column)> {
    match c {
        Some((r, g, b)) => Some(((r.0 as int, r.1), (g.0 as int, g.1), (b.0 as int, b.1))),
        None => None,
    }
}

/// Does the column stand within a row of `stride` bytes?
spec fn fits(c: (usize, PropType), stride: usize) -> bool {
    c.0 + ply::type_size(c.1) <= stride
}

fn find_color(layout: &VertexLayout) -> (c: Option<
    ((usize, PropType), (usize, PropType), (usize, PropType)),
>)
    requires
        layout.well_formed(),
    ensures
        color_view(c) == color_columns(ply::props_view(layout.props@)),
        c matches Some((r, g, b)) ==> fits(r, layout.stride) && fits(g, layout.stride) && fits(
            b,
            layout.stride,
        ),
{
    let r = layout.offset_of("f_dc_0");
    let g = layout.offset_of("f_dc_1");
    let b = layout.offset_of("f_dc_2");
    match (r, g, b) {
        (Some(r), Some(g), Some(b)) => Some((r, g, b)),
        _ => None,
    }
}

fn read_cell(bytes: &Vec<u8>, row: usize, c: (usize, PropType)) -> (v: PropValue)
    requires
        row + c.0 + ply::type_size(c.1) <= bytes@.len(),
    ensures
        v == cell(bytes@, row as int, (c.0 as int, c.1)),
{
    let n: usize = bytes.len();
    c.1.read(bytes, row + c.0)
}

fn read_splat(
    bytes: &Vec<u8>,
    row: usize,
    stride: usize,
    c: &Vec<(usize, PropType)>,
    color: Option<((usize, PropType), (usize, PropType), (usize, PropType))>,
) -> (s: RawSplat)
    requires
        row + stride <= bytes@.len(),
        c@.len() == 11,
        forall|k: int| 0 <= k < 11 ==> fits(#[trigger] c@[k], stride),
        color matches Some((r, g, b)) ==> fits(r, stride) && fits(g, stride) && fits(b, stride),
    ensures
        s == splat_at(bytes@, row as int, columns_view(c@), color_view(color)),
{
    assert forall|k: int| 0 <= k < 11 implies fits(#[trigger] c@[k], stride) && columns_view(c@)[k]
        == (c@[k].0 as int, c@[k].1) by {}
    RawSplat {
        position: (
            read_cell(bytes, row, c[0]),
            read_cell(bytes, row, c[1]),
            read_cell(bytes, row, c[2]),
        ),
        opacity: read_cell(bytes, row, c[3]),
        scale: (
            read_cell(bytes, row, c[4]),
            read_cell(bytes, row, c[5]),
            read_cell(bytes, row, c[6]),
        ),
        rotation: (
            read_cell(bytes, row, c[7]),
            read_cell(bytes, row, c[8]),
            read_cell(bytes, row, c[9]),
            read_cell(bytes, row, c[10]),
        ),
        color: match color {
            Some((r, g, b)) => Some(
                (read_cell(bytes, row, r), read_cell(bytes, row, g), read_cell(bytes, row, b)),
            ),
            None => None,
        },
    }
}

/// Do `count` rows of `stride` bytes fit in `room` bytes?
pub fn rows_fit(stride: usize, count: usize, room: usize) -> (b: bool)
    requires
        stride > 0,
    ensures
        b == (count * stride <= room),
{
    let most: usize = room / stride;
    proof {
        let (s, c, r, m) = (stride as int, count as int, room as int, most as int);
        assert(m * s <= r < (m + 1) * s) by (nonlinear_arith)
            requires
                s > 0,
                m == r / s,
                r >= 0,
        ;
        if c <= m {
            assert(c * s <= m * s) by (nonlinear_arith)
                requires
                    c <= m,
                    s > 0,
            ;
        } else {
            assert(c * s >= (m + 1) * s) by (nonlinear_arith)
                requires
                    c >= m + 1,
                    s > 0,
            ;
        }
    }
    count <= most
}

/// Rows take no negative room.
pub proof fn rows_take_room(count: int, stride: int)
    requires
        0 <= count,
        0 <= stride,
    ensures
        0 <= count * stride,
        0 * stride == 0,
{
    assert(0 <= count * stride) by (nonlinear_arith)
        requires
            0 <= count,
            0 <= stride,
    ;
}

/// One row further, and still within the rows.
pub proof fn next_row(r: int, count: int, stride: int)
    requires
        0 <= r < count,
        stride >= 0,
    ensures
        (r + 1) * stride == r * stride + stride,
        r * stride + stride <= count * stride,
        0 <= r * stride,
{
    assert((r + 1) * stride == r * stride + stride) by (nonlinear_arith);
    assert((r + 1) * stride <= count * stride) by (nonlinear_arith)
        requires
            r + 1 <= count,
            stride >= 0,
    ;
    assert(0 <= r * stride) by (nonlinear_arith)
        requires
            r >= 0,
            stride >= 0,
    ;
}

fn detect_linear(bytes: &Vec<u8>, layout: &VertexLayout, opacity: (usize, PropType)) -> (b: bool)
    requires
        fits(opacity, layout.stride),
        layout.body + layout.count * layout.stride <= bytes@.len(),
    ensures
        b == linear_units(
            bytes@,
            layout.body as int,
            layout.stride as int,
            layout.count as int,
            (opacity.0 as int, opacity.1),
        ),
{
    let n: usize = bytes.len();
    let mut row: usize = layout.body;
    let mut r: usize = 0;
    proof {
        rows_take_room(layout.count as int, layout.stride as int);
    }
    let ghost c = (opacity.0 as int, opacity.1);
    while r < layout.count && r < OPACITY_ROWS
        invariant
            n == bytes@.len(),
            r <= layout.count,
            r <= OPACITY_ROWS,
            fits(opacity, layout.stride),
            layout.body + layout.count * layout.stride <= n,
            row == layout.body + r * layout.stride,
            row <= n,
            c == (opacity.0 as int, opacity.1),
            forall|k: int|
                0 <= k < r ==> !beyond_unit(
                    #[trigger] cell(bytes@, layout.body + k * layout.stride, c),
                ),
        decreases layout.count - r,
    {
        proof {
            next_row(r as int, layout.count as int, layout.stride as int);
        }
        if is_beyond_unit(&read_cell(bytes, row, opacity)) {
            assert(beyond_unit(cell(bytes@, layout.body + r * layout.stride, c)));
            return false;
        }
        row += layout.stride;
        r += 1;
    }
    true
}

/// Reads a splat file from its bytes. Rows whose position is not finite are
/// left out.
pub fn load_splat_ply(bytes: &Vec<u8>) -> (r: Result<RawCloud, PlyError<String>>)
    ensures
        match r {
            Ok(cloud) => splat_file(bytes@) == Ok::<(Seq<RawSplat>, bool), PlyError<Seq<char>>>(
                (cloud.splats@, cloud.linear),
            ),
            Err(e) => splat_file(bytes@) == Err::<(Seq<RawSplat>, bool), PlyError<Seq<char>>>(
                ply::error_view(e),
            ),
        },
{
    let layout = match parse_header(bytes, false) {
        Ok(layout) => layout,
        Err(e) => return Err(e),
    };
    let c = match find_columns(&layout) {
        Ok(c) => c,
        Err(e) => return Err(e),
    };
    let color = find_color(&layout);
    let n: usize = bytes.len();
    assert(c@[0].0 + ply::type_size(c@[0].1) <= layout.stride);
    if !rows_fit(layout.stride, layout.count, n - layout.body) {
        return Err(PlyError::Truncated);
    }
    assert(forall|k: int| 0 <= k < 11 ==> fits(#[trigger] c@[k], layout.stride));
    assert(columns_view(c@)[3] == (c@[3].0 as int, c@[3].1));
    let linear = detect_linear(bytes, &layout, c[3]);
    let mut splats: Vec<RawSplat> = Vec::new();
    let mut row: usize = layout.body;
    proof {
        rows_take_room(layout.count as int, layout.stride as int);
    }
    for i in 0..layout.count
        invariant
            n == bytes@.len(),
            layout.body + layout.count * layout.stride <= n,
            row == layout.body + i * layout.stride,
            row <= n,
            c@.len() == 11,
            forall|k: int| 0 <= k < 11 ==> fits(#[trigger] c@[k], layout.stride),
            color matches Some((r, g, b)) ==> fits(r, layout.stride) && fits(g, layout.stride)
                && fits(b, layout.stride),
            splats@ == placed_splats(
                bytes@,
                layout.body as int,
                layout.stride as int,
                i as int,
                columns_view(c@),
                color_view(color),
            ),
    {
        proof {
            next_row(i as int, layout.count as int, layout.stride as int);
        }
        let s = read_splat(bytes, row, layout.stride, &c, color);
        if is_finite_single(&s.position.0) && is_finite_single(&s.position.1) && is_finite_single(
            &s.position.2,
        ) {
            splats.push(s);
        }
        row += layout.stride;
    }
    if splats.len() == 0 {
        return Err(PlyError::Empty);
    }
    Ok(RawCloud { splats, linear })
}

/// Every splat that is read has finite coordinates, and none is made up.
pub proof fn placed_splats_are_placed(
    b: Seq<u8>,
    body: int,
    stride: int,
    n: int,
    c: Seq<Column>,
    color: Option<(Column, Column, Column)>,
    k: int,
)
    requires
        0 <= k < placed_splats(b, body, stride, n, c, color).len(),
    ensures
        placed(placed_splats(b, body, stride, n, c, color)[k]),
        exists|r: int|
            0 <= r < n && placed_splats(b, body, stride, n, c, color)[k] == #[trigger] splat_at(
                b,
                body + r * stride,
                c,
                color,
            ),
        placed_splats(b, body, stride, n, c, color).len() <= n,
    decreases n,
{
    placed_splats_bound(b, body, stride, n, c, color);
    let before = placed_splats(b, body, stride, n - 1, c, color);
    if k < before.len() {
        placed_splats_are_placed(b, body, stride, n - 1, c, color, k);
    } else {
        assert(placed_splats(b, body, stride, n, c, color)[k] == splat_at(
            b,
            body + (n - 1) * stride,
            c,
            color,
        ));
    }
}

proof fn placed_splats_bound(
    b: Seq<u8>,
    body: int,
    stride: int,
    n: int,
    c: Seq<Column>,
    color: Option<(Column, Column, Column)>,
)
    ensures
        placed_splats(b, body, stride, n, c, color).len() <= if n < 0 {
            0
        } else {
            n
        },
    decreases n,
{
    if n > 0 {
        placed_splats_bound(b, body, stride, n - 1, c, color);
    }
}

/// Do the bytes hold a splat file, going by its header: binary, with every
/// property that a splat must have?
pub fn holds_splats(bytes: &Vec<u8>) -> (b: bool)
    ensures
        b == (ply::header_of(bytes@, false) matches Ok((m, _)) && columns(m.props, needed_names())
            is Ok),
{
    match parse_header(bytes, false) {
        Ok(layout) => match find_columns(&layout) {
            Ok(_) => true,
            Err(_) => false,
        },
        Err(_) => false,
    }
}

/// Gaussians in linear units. Numbers are the bits of singles; a rotation has its
/// scalar last.
#[derive(Debug)]
pub struct SplatCloud {
    pub positions: Vec<[u32; 3]>,
    pub scales: Vec<[u32; 3]>,
    pub rotations: Vec<[u32; 4]>,
    pub opacities: Vec<u32>,
    pub colors: Vec<[u32; 3]>,
}

impl SplatCloud {
    /// Does every gaussian have all of its parts?
    pub open spec fn well_formed(self) -> bool {
        &&& self.scales@.len() == self.positions@.len()
        &&& self.rotations@.len() == self.positions@.len()
        &&& self.opacities@.len() == self.positions@.len()
        &&& self.colors@.len() == self.positions@.len()
    }

    /// No gaussians.
    pub fn new() -> (c: SplatCloud)
        ensures
            c.well_formed(),
            c.positions@.len() == 0,
    {
        SplatCloud {
            positions: Vec::new(),
            scales: Vec::new(),
            rotations: Vec::new(),
            opacities: Vec::new(),
            colors: Vec::new(),
        }
    }

    /// Adds a gaussian.
    pub fn push(
        &mut self,
        position: [u32; 3],
        scale: [u32; 3],
        rotation: [u32; 4],
        opacity: u32,
        color: [u32; 3],
    )
        requires
            old(self).well_formed(),
        ensures
            final(self).well_formed(),
            final(self).positions@ == old(self).positions@.push(position),
            final(self).scales@ == old(self).scales@.push(scale),
            final(self).rotations@ == old(self).rotations@.push(rotation),
            final(self).opacities@ == old(self).opacities@.push(opacity),
            final(self).colors@ == old(self).colors@.push(color),
    {
        self.positions.push(position);
        self.scales.push(scale);
        self.rotations.push(rotation);
        self.opacities.push(opacity);
        self.colors.push(color);
    }

    /// The number of gaussians.
    pub fn len(&self) -> (n: usize)
        ensures
            n == self.positions@.len(),
    {
        self.positions.len()
    }

    /// Are there no gaussians?
    pub fn is_empty(&self) -> (b: bool)
        ensures
            b == (self.positions@.len() == 0),
    {
        self.positions.len() == 0
    }
}

} // verus!
