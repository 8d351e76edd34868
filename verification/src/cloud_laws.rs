//! What a point cloud holds, told from the names of its properties and the numbers on
//! its lines.

use crate::ieee;
use crate::ply::{self, HeaderModel, PropType, PropValue};
use crate::point_cloud::{
    self as clouds, PointCloud, PointColumns, PointFile, RawPoint, SinglePoint,
};
use crate::text;
use vstd::prelude::*;

verus! {

/// Is this the property that the names stand for: the first with the first of the
/// names that is there at all, letters in any case?
pub open spec fn bears(props: Seq<ply::PropModel>, names: Seq<Seq<char>>, i: int) -> bool {
    0 <= i < props.len() && exists|a: int|
        0 <= a < names.len() && #[trigger] names[a] == text::lower(props[i].0) && (forall|j: int|
            0 <= j < i ==> text::lower((#[trigger] props[j]).0) != names[a]) && forall|c: int, j: int|
            0 <= c < a && 0 <= j < props.len() ==> text::lower((#[trigger] props[j]).0)
                != #[trigger] names[c]
}

/// Is there no property with any of the names?
pub open spec fn nobody_bears(props: Seq<ply::PropModel>, names: Seq<Seq<char>>) -> bool {
    forall|a: int, j: int|
        0 <= a < names.len() && 0 <= j < props.len() ==> text::lower((#[trigger] props[j]).0)
            != #[trigger] names[a]
}

/// Are the letters small?
spec fn small(s: Seq<char>) -> bool {
    forall|k: int| 0 <= k < s.len() ==> !('A' <= #[trigger] s[k] <= 'Z')
}

proof fn small_stays(s: Seq<char>)
    requires
        small(s),
    ensures
        text::lower(s) == s,
{
    assert(text::lower(s) =~= s);
}

proof fn index_bears(props: Seq<ply::PropModel>, name: Seq<char>)
    requires
        small(name),
    ensures
        ({
            let i = clouds::index_named(props, name);
            if i < 0 {
                i == -1 && forall|j: int|
                    0 <= j < props.len() ==> text::lower((#[trigger] props[j]).0) != name
            } else {
                i < props.len() && text::lower(props[i].0) == name && forall|j: int|
                    0 <= j < i ==> text::lower((#[trigger] props[j]).0) != name
            }
        }),
    decreases props.len(),
{
    small_stays(name);
    if props.len() > 0 && text::lower(props[0].0) != name {
        let rest = props.skip(1);
        index_bears(rest, name);
        let i = clouds::index_named(rest, name);
        assert forall|j: int|
            0 <= j < if i < 0 {
                props.len() as int
            } else {
                i + 1
            } implies text::lower((#[trigger] props[j]).0) != name by {
            if j > 0 {
                assert(props[j] == rest[j - 1]);
            }
        }
        if i >= 0 {
            assert(props[i + 1] == rest[i]);
        }
    }
}

proof fn any_bears(props: Seq<ply::PropModel>, names: Seq<Seq<char>>)
    requires
        forall|a: int| 0 <= a < names.len() ==> small(#[trigger] names[a]),
    ensures
        ({
            let i = clouds::index_of_any(props, names);
            if i < 0 {
                i == -1 && nobody_bears(props, names)
            } else {
                bears(props, names, i)
            }
        }),
    decreases names.len(),
{
    if names.len() > 0 {
        index_bears(props, names[0]);
        let first = clouds::index_named(props, names[0]);
        if first >= 0 {
            assert(names[0] == text::lower(props[first].0));
        } else {
            let rest = names.skip(1);
            assert forall|a: int| 0 <= a < rest.len() implies small(#[trigger] rest[a]) by {
                assert(rest[a] == names[a + 1]);
            }
            any_bears(props, rest);
            let i = clouds::index_of_any(props, rest);
            if i < 0 {
                assert forall|a: int, j: int|
                    0 <= a < names.len() && 0 <= j < props.len() implies text::lower(
                    (#[trigger] props[j]).0,
                ) != #[trigger] names[a] by {
                    if a > 0 {
                        assert(names[a] == rest[a - 1]);
                    }
                }
            } else {
                let a = choose|a: int|
                    0 <= a < rest.len() && #[trigger] rest[a] == text::lower(props[i].0) && (
                    forall|j: int| 0 <= j < i ==> text::lower((#[trigger] props[j]).0) != rest[a])
                        && forall|c: int, j: int|
                        0 <= c < a && 0 <= j < props.len() ==> text::lower((#[trigger] props[j]).0)
                            != #[trigger] rest[c];
                assert(names[a + 1] == rest[a]);
                assert forall|c: int, j: int|
                    0 <= c < a + 1 && 0 <= j < props.len() implies text::lower(
                    (#[trigger] props[j]).0,
                ) != #[trigger] names[c] by {
                    if c > 0 {
                        assert(names[c] == rest[c - 1]);
                    }
                }
            }
        }
    }
}

/// Are the three places those of the properties that the names stand for?
pub open spec fn three_bear(
    props: Seq<ply::PropModel>,
    c: (usize, usize, usize),
    x: Seq<Seq<char>>,
    y: Seq<Seq<char>>,
    z: Seq<Seq<char>>,
) -> bool {
    bears(props, x, c.0 as int) && bears(props, y, c.1 as int) && bears(props, z, c.2 as int)
}

/// What red goes by.
pub open spec fn reds() -> Seq<Seq<char>> {
    seq!["red"@, "r"@, "diffuse_red"@]
}

/// What green goes by.
pub open spec fn greens() -> Seq<Seq<char>> {
    seq!["green"@, "g"@, "diffuse_green"@]
}

/// What blue goes by.
pub open spec fn blues() -> Seq<Seq<char>> {
    seq!["blue"@, "b"@, "diffuse_blue"@]
}

/// What the normal along x goes by.
pub open spec fn normals_x() -> Seq<Seq<char>> {
    seq!["nx"@, "normal_x"@]
}

/// What the normal along y goes by.
pub open spec fn normals_y() -> Seq<Seq<char>> {
    seq!["ny"@, "normal_y"@]
}

/// What the normal along z goes by.
pub open spec fn normals_z() -> Seq<Seq<char>> {
    seq!["nz"@, "normal_z"@]
}

proof fn names_are_small()
    ensures
        small("x"@) && small("y"@) && small("z"@),
        forall|a: int| 0 <= a < 3 ==> small(#[trigger] reds()[a]),
        forall|a: int| 0 <= a < 3 ==> small(#[trigger] greens()[a]),
        forall|a: int| 0 <= a < 3 ==> small(#[trigger] blues()[a]),
        forall|a: int| 0 <= a < 2 ==> small(#[trigger] normals_x()[a]),
        forall|a: int| 0 <= a < 2 ==> small(#[trigger] normals_y()[a]),
        forall|a: int| 0 <= a < 2 ==> small(#[trigger] normals_z()[a]),
{
    reveal_strlit("x");
    reveal_strlit("y");
    reveal_strlit("z");
    reveal_strlit("red");
    reveal_strlit("r");
    reveal_strlit("diffuse_red");
    reveal_strlit("green");
    reveal_strlit("g");
    reveal_strlit("diffuse_green");
    reveal_strlit("blue");
    reveal_strlit("b");
    reveal_strlit("diffuse_blue");
    reveal_strlit("nx");
    reveal_strlit("normal_x");
    reveal_strlit("ny");
    reveal_strlit("normal_y");
    reveal_strlit("nz");
    reveal_strlit("normal_z");
}

/// Each component of a point comes from the property that names it, letters in any
/// case: x, y and z for the position, red, green and blue or what they go by for the
/// colour, and nx, ny and nz or what they go by for the normal. A colour or a normal
/// takes all three. Channels are integers where red is stored as one.
pub proof fn columns_bear_their_names(props: Seq<ply::PropModel>)
    requires
        props.len() <= usize::MAX,
    ensures
        match clouds::point_columns(props) {
            Ok(c) => {
                &&& three_bear(props, c.position, seq!["x"@], seq!["y"@], seq!["z"@])
                &&& match c.color {
                    Some(t) => three_bear(props, t, reds(), greens(), blues()),
                    None => nobody_bears(props, reds()) || nobody_bears(props, greens())
                        || nobody_bears(props, blues()),
                }
                &&& match c.normal {
                    Some(t) => three_bear(props, t, normals_x(), normals_y(), normals_z()),
                    None => nobody_bears(props, normals_x()) || nobody_bears(props, normals_y())
                        || nobody_bears(props, normals_z()),
                }
                &&& c.integer <==> exists|i: int| #[trigger]
                    bears(props, reds(), i) && props[i].2 != PropType::F32 && props[i].2
                        != PropType::F64
            },
            Err(name) => nobody_bears(props, seq![name]) && (name == "x"@ || name == "y"@ || name
                == "z"@),
        },
{
    names_are_small();
    assert(seq!["x"@][0] == "x"@ && seq!["y"@][0] == "y"@ && seq!["z"@][0] == "z"@);
    any_bears(props, seq!["x"@]);
    any_bears(props, seq!["y"@]);
    any_bears(props, seq!["z"@]);
    any_bears(props, reds());
    any_bears(props, greens());
    any_bears(props, blues());
    any_bears(props, normals_x());
    any_bears(props, normals_y());
    any_bears(props, normals_z());
    one_name(props, "x"@);
    one_name(props, "y"@);
    one_name(props, "z"@);
    let r = clouds::index_of_any(props, reds());
    assert forall|i: int| #[trigger] bears(props, reds(), i) implies i == r by {
        bearer_is_unique(props, reds(), i, r);
    }
}

proof fn one_name(props: Seq<ply::PropModel>, name: Seq<char>)
    ensures
        clouds::index_of_any(props, seq![name]) == clouds::index_named(props, name)
            || (clouds::index_of_any(props, seq![name]) == -1 && clouds::index_named(props, name)
            < 0),
{
    assert(seq![name][0] == name);
    assert(seq![name].skip(1).len() == 0);
    reveal_with_fuel(clouds::index_of_any, 2);
}

proof fn bearer_is_unique(props: Seq<ply::PropModel>, names: Seq<Seq<char>>, i: int, r: int)
    requires
        bears(props, names, i),
        r < 0 ==> nobody_bears(props, names),
        r >= 0 ==> bears(props, names, r),
    ensures
        i == r,
{
    let a = choose|a: int|
        0 <= a < names.len() && #[trigger] names[a] == text::lower(props[i].0) && (forall|j: int|
            0 <= j < i ==> text::lower((#[trigger] props[j]).0) != names[a]) && forall|c: int, j: int|
            0 <= c < a && 0 <= j < props.len() ==> text::lower((#[trigger] props[j]).0)
                != #[trigger] names[c];
    assert(text::lower(props[i].0) == names[a]);
    if r >= 0 {
        let b = choose|a: int|
            0 <= a < names.len() && #[trigger] names[a] == text::lower(props[r].0) && (forall|
                j: int,
            |
                0 <= j < r ==> text::lower((#[trigger] props[j]).0) != names[a]) && forall|
                c: int,
                j: int,
            |
                0 <= c < a && 0 <= j < props.len() ==> text::lower((#[trigger] props[j]).0)
                    != #[trigger] names[c];
        assert(text::lower(props[r].0) == names[b]);
        if a < b {
            assert(text::lower(props[i].0) != names[a]);
        } else if b < a {
            assert(text::lower(props[r].0) != names[b]);
        } else if i < r {
            assert(text::lower(props[i].0) != names[b]);
        } else if r < i {
            assert(text::lower(props[r].0) != names[a]);
        }
    }
}

/// Is this the value that the property which the names stand for has in row `r`?
pub open spec fn stored(
    b: Seq<u8>,
    m: HeaderModel,
    body: int,
    r: int,
    names: Seq<Seq<char>>,
    v: PropValue,
) -> bool {
    exists|i: int| #[trigger]
        bears(m.props, names, i) && v == ply::value_at(
            m.props[i].2,
            b,
            body + r * m.stride,
            m.props[i].1,
        )
}

/// A point of a binary file holds the values that its row has for the properties that
/// name its components; there is one point for each row that is declared.
pub proof fn binary_points_hold_what_is_named(b: Seq<u8>, f: PointFile, r: int)
    requires
        clouds::point_file(b, f),
        f.body is Points,
        0 <= r < f.body->Points_0@.len(),
    ensures
        ply::header_of(b, true) matches Ok((m, body)) && {
            let p = f.body->Points_0@[r];
            &&& m.count == Some(f.body->Points_0@.len())
            &&& stored(b, m, body, r, seq!["x"@], p.position.0)
            &&& stored(b, m, body, r, seq!["y"@], p.position.1)
            &&& stored(b, m, body, r, seq!["z"@], p.position.2)
            &&& p.color matches Some(c) ==> stored(b, m, body, r, reds(), c.0) && stored(
                b,
                m,
                body,
                r,
                greens(),
                c.1,
            ) && stored(b, m, body, r, blues(), c.2)
            &&& p.color is None ==> nobody_bears(m.props, reds()) || nobody_bears(
                m.props,
                greens(),
            ) || nobody_bears(m.props, blues())
            &&& p.normal matches Some(c) ==> stored(b, m, body, r, normals_x(), c.0) && stored(
                b,
                m,
                body,
                r,
                normals_y(),
                c.1,
            ) && stored(b, m, body, r, normals_z(), c.2)
            &&& p.normal is None ==> nobody_bears(m.props, normals_x()) || nobody_bears(
                m.props,
                normals_y(),
            ) || nobody_bears(m.props, normals_z())
        },
{
    let (m, body) = ply::header_of(b, true)->Ok_0;
    columns_bear_their_names(m.props);
    let c = f.columns;
    assert(bears(m.props, seq!["x"@], c.position.0 as int));
    assert(bears(m.props, seq!["y"@], c.position.1 as int));
    assert(bears(m.props, seq!["z"@], c.position.2 as int));
    if let Some(t) = c.color {
        assert(bears(m.props, reds(), t.0 as int));
        assert(bears(m.props, greens(), t.1 as int));
        assert(bears(m.props, blues(), t.2 as int));
    }
    if let Some(t) = c.normal {
        assert(bears(m.props, normals_x(), t.0 as int));
        assert(bears(m.props, normals_y(), t.1 as int));
        assert(bears(m.props, normals_z(), t.2 as int));
    }
}

/// Is this the number at the place of the property that the names stand for?
pub open spec fn written(
    props: Seq<ply::PropModel>,
    v: Seq<u32>,
    names: Seq<Seq<char>>,
    x: PropValue,
) -> bool {
    exists|i: int| #[trigger] bears(props, names, i) && x == PropValue::Single(v[i])
}

/// A point of a text file holds the numbers of its line at the places of the
/// properties that name its components.
pub proof fn text_points_hold_what_is_named(
    props: Seq<ply::PropModel>,
    c: PointColumns,
    v: Seq<u32>,
)
    requires
        props.len() <= usize::MAX,
        clouds::point_columns(props) == Ok::<PointColumns, Seq<char>>(c),
    ensures
        ({
            let p = clouds::text_point(v, c);
            &&& written(props, v, seq!["x"@], p.position.0)
            &&& written(props, v, seq!["y"@], p.position.1)
            &&& written(props, v, seq!["z"@], p.position.2)
            &&& p.color matches Some(t) ==> written(props, v, reds(), t.0) && written(
                props,
                v,
                greens(),
                t.1,
            ) && written(props, v, blues(), t.2)
            &&& p.color is None ==> nobody_bears(props, reds()) || nobody_bears(props, greens())
                || nobody_bears(props, blues())
            &&& p.normal matches Some(t) ==> written(props, v, normals_x(), t.0) && written(
                props,
                v,
                normals_y(),
                t.1,
            ) && written(props, v, normals_z(), t.2)
            &&& p.normal is None ==> nobody_bears(props, normals_x()) || nobody_bears(
                props,
                normals_y(),
            ) || nobody_bears(props, normals_z())
        }),
{
    columns_bear_their_names(props);
    assert(bears(props, seq!["x"@], c.position.0 as int));
    assert(bears(props, seq!["y"@], c.position.1 as int));
    assert(bears(props, seq!["z"@], c.position.2 as int));
    if let Some(t) = c.color {
        assert(bears(props, reds(), t.0 as int));
        assert(bears(props, greens(), t.1 as int));
        assert(bears(props, blues(), t.2 as int));
    }
    if let Some(t) = c.normal {
        assert(bears(props, normals_x(), t.0 as int));
        assert(bears(props, normals_y(), t.1 as int));
        assert(bears(props, normals_z(), t.2 as int));
    }
}

/// The numbers of a line are those that its words spell, in order, without the words
/// that spell none.
pub proof fn numbers_are_what_is_spelled(line: Seq<Option<u32>>)
    ensures
        clouds::numbers(line) == line.filter(|w: Option<u32>| w is Some).map_values(
            |w: Option<u32>| w->0,
        ),
    decreases line.len(),
{
    let is = |w: Option<u32>| w is Some;
    let of = |w: Option<u32>| w->0;
    reveal(Seq::filter);
    if line.len() > 0 {
        numbers_are_what_is_spelled(line.drop_last());
        let before = line.drop_last().filter(is);
        if line.last() is Some {
            assert(before.push(line.last()).map_values(of) =~= before.map_values(of).push(
                line.last()->0,
            ));
        }
    } else {
        assert(line.filter(is).map_values(of) =~= Seq::<u32>::empty());
    }
}

/// Does the line have at least so many numbers?
pub open spec fn full(line: Option<Vec<Option<u32>>>, width: int) -> bool {
    line matches Some(l) && clouds::numbers(l@).len() >= width
}

/// Do the points come from these lines, and from every full line among the first `n`?
pub open spec fn come_from(
    lines: Seq<Option<Vec<Option<u32>>>>,
    c: PointColumns,
    width: int,
    n: int,
    points: Seq<RawPoint>,
    rows: Seq<int>,
) -> bool {
    &&& rows.len() == points.len()
    &&& forall|j: int, k: int| 0 <= j < k < rows.len() ==> #[trigger] rows[j] < #[trigger] rows[k]
    &&& forall|k: int|
        0 <= k < rows.len() ==> 0 <= #[trigger] rows[k] < n && full(lines[rows[k]], width)
            && points[k] == clouds::text_point(clouds::numbers((lines[rows[k]]->0)@), c)
    &&& forall|r: int| 0 <= r < n && full(#[trigger] lines[r], width) ==> rows.contains(r)
}

/// A text file gives a point for each line with enough numbers, in order: all of them,
/// or the first ones up to the declared count.
pub proof fn full_lines_make_points(
    lines: Seq<Option<Vec<Option<u32>>>>,
    c: PointColumns,
    width: int,
    count: int,
) -> (read: (int, Seq<int>))
    requires
        count >= 0,
        clouds::points_of_lines(lines, c, width, count) is Some,
    ensures
        0 <= read.0 <= lines.len(),
        come_from(
            lines,
            c,
            width,
            read.0,
            clouds::points_of_lines(lines, c, width, count)->0,
            read.1,
        ),
        count > 0 ==> read.1.len() <= count,
        read.0 < lines.len() ==> count > 0 && read.1.len() == count,
    decreases lines.len(),
{
    let n = lines.len() as int;
    if n == 0 {
        (0, Seq::empty())
    } else {
        let short = lines.drop_last();
        let (m, before) = full_lines_make_points(short, c, width, count);
        let old_points = clouds::points_of_lines(short, c, width, count)->0;
        let points = clouds::points_of_lines(lines, c, width, count)->0;
        if count > 0 && before.len() == count {
            assert(come_from(lines, c, width, m, points, before)) by {
                assert forall|k: int| 0 <= k < before.len() implies 0 <= #[trigger] before[k] < m
                    && full(lines[before[k]], width) && points[k] == clouds::text_point(
                    clouds::numbers((lines[before[k]]->0)@),
                    c,
                ) by {
                    assert(lines[before[k]] == short[before[k]]);
                }
                assert forall|r: int|
                    0 <= r < m && full(#[trigger] lines[r], width) implies before.contains(r) by {
                    assert(short[r] == lines[r]);
                }
            }
            (m, before)
        } else {
            let rows = if full(lines.last(), width) {
                before.push(n - 1)
            } else {
                before
            };
            assert(come_from(lines, c, width, n, points, rows)) by {
                assert forall|k: int| 0 <= k < rows.len() implies 0 <= #[trigger] rows[k] < n
                    && full(lines[rows[k]], width) && points[k] == clouds::text_point(
                    clouds::numbers((lines[rows[k]]->0)@),
                    c,
                ) by {
                    if k < before.len() {
                        assert(rows[k] == before[k]);
                        assert(lines[before[k]] == short[before[k]]);
                        assert(points[k] == old_points[k]);
                    }
                }
                assert forall|r: int|
                    0 <= r < n && full(#[trigger] lines[r], width) implies rows.contains(r) by {
                    if r < n - 1 {
                        assert(short[r] == lines[r]);
                        assert(before.contains(r));
                        let k = choose|k: int| 0 <= k < before.len() && before[k] == r;
                        assert(rows[k] == r);
                    } else {
                        assert(rows[before.len() as int] == r);
                    }
                }
            }
            (n, rows)
        }
    }
}

/// Channels run to 255 exactly where they are integers, or one of the first 4096 points
/// has a channel above 1.5.
pub proof fn channels_are_told_by_range(points: Seq<RawPoint>, integer: bool)
    ensures
        clouds::byte_channels(points, integer) <==> integer || exists|i: int|
            0 <= i < points.len() && i < 4096 && ((#[trigger] points[i]).color matches Some(c) && (
            exceeds(c.0) || exceeds(c.1) || exceeds(c.2))),
{
    if clouds::byte_channels(points, integer) && !integer {
        let i = choose|i: int|
            0 <= i < points.len() && i < clouds::CHANNEL_ROWS && clouds::bright(#[trigger] points[i]);
        assert(points[i].color is Some);
    }
    if exists|i: int|
        0 <= i < points.len() && i < 4096 && ((#[trigger] points[i]).color matches Some(c) && (
        exceeds(c.0) || exceeds(c.1) || exceeds(c.2))) {
        let i = choose|i: int|
            0 <= i < points.len() && i < 4096 && ((#[trigger] points[i]).color matches Some(c) && (
            exceeds(c.0) || exceeds(c.1) || exceeds(c.2)));
        assert(clouds::bright(points[i]));
    }
}

/// Is the value, as a single, above 1.5?
pub open spec fn exceeds(v: PropValue) -> bool {
    match v {
        PropValue::Single(bits) => ieee::less(0x3fc0_0000, bits),
        PropValue::Double(bits) => 0x3ff8_0000_1000_0000 < bits <= 0x7ff0_0000_0000_0000,
        PropValue::Int(i) => i >= 2,
    }
}

/// Channels are held between zero and one, each in its place, and a point without a
/// colour is grey at seven tenths.
pub proof fn colours_are_held_in_range(p: SinglePoint, k: int)
    requires
        0 <= k < 3,
    ensures
        clouds::cloud_color(p).len() == 3,
        match p.color {
            Some(c) => {
                let v = clouds::cloud_color(p)[k];
                &&& ieee::nan(c@[k]) ==> v == c@[k]
                &&& ieee::in_unit(c@[k]) ==> v == c@[k]
                &&& ieee::less(c@[k], 0) ==> v == 0
                &&& ieee::less(0x3f80_0000, c@[k]) ==> v == 0x3f80_0000
            },
            None => clouds::cloud_color(p)[k] == 0x3f33_3333,
        },
{
}

/// Do the vertices come from these lines, and from every line with three numbers?
pub open spec fn vertices_from(
    lines: Seq<Vec<Option<u32>>>,
    points: Seq<RawPoint>,
    rows: Seq<int>,
) -> bool {
    &&& rows.len() == points.len()
    &&& forall|j: int, k: int| 0 <= j < k < rows.len() ==> #[trigger] rows[j] < #[trigger] rows[k]
    &&& forall|k: int|
        0 <= k < rows.len() ==> 0 <= #[trigger] rows[k] < lines.len() && {
            let v = clouds::numbers(lines[rows[k]]@);
            &&& v.len() >= 3
            &&& points[k].position == (
                PropValue::Single(v[0]),
                PropValue::Single(v[1]),
                PropValue::Single(v[2]),
            )
            &&& points[k].normal is None
        }
    &&& forall|r: int|
        0 <= r < lines.len() && clouds::numbers((#[trigger] lines[r])@).len() >= 3 ==> rows.contains(
            r,
        )
}

proof fn vertices_of_lines(lines: Seq<Vec<Option<u32>>>) -> (rows: Seq<int>)
    ensures
        vertices_from(lines, clouds::vertices_of(lines), rows),
        forall|k: int|
            0 <= k < rows.len() ==> clouds::vertices_of(lines)[k].color == Some(
                shade(clouds::numbers(lines[#[trigger] rows[k]]@)),
            ),
    decreases lines.len(),
{
    let n = lines.len() as int;
    if n == 0 {
        Seq::empty()
    } else {
        let short = lines.drop_last();
        let before = vertices_of_lines(short);
        let v = clouds::numbers(lines.last()@);
        let rows = if v.len() >= 3 {
            before.push(n - 1)
        } else {
            before
        };
        let (old_points, points) = (clouds::vertices_of(short), clouds::vertices_of(lines));
        assert forall|k: int| 0 <= k < rows.len() implies {
            let v = clouds::numbers(lines[#[trigger] rows[k]]@);
            &&& 0 <= rows[k] < n
            &&& v.len() >= 3
            &&& points[k].position == (
                PropValue::Single(v[0]),
                PropValue::Single(v[1]),
                PropValue::Single(v[2]),
            )
            &&& points[k].normal is None
            &&& points[k].color == Some(shade(v))
        } by {
            if k < before.len() {
                assert(rows[k] == before[k]);
                assert(lines[before[k]] == short[before[k]]);
                assert(points[k] == old_points[k]);
            }
        }
        assert forall|r: int|
            0 <= r < n && clouds::numbers(
                (#[trigger] lines[r])@,
            ).len() >= 3 implies rows.contains(r) by {
            if r < n - 1 {
                assert(short[r] == lines[r]);
                assert(before.contains(r));
                let k = choose|k: int| 0 <= k < before.len() && before[k] == r;
                assert(rows[k] == r);
            } else {
                assert(rows[before.len() as int] == r);
            }
        }
        rows
    }
}

/// The colour behind the position where there are six numbers, else grey.
pub open spec fn shade(v: Seq<u32>) -> (PropValue, PropValue, PropValue) {
    if v.len() >= 6 {
        (PropValue::Single(v[3]), PropValue::Single(v[4]), PropValue::Single(v[5]))
    } else {
        (
            PropValue::Single(0x3f33_3333),
            PropValue::Single(0x3f33_3333),
            PropValue::Single(0x3f33_3333),
        )
    }
}

/// An OBJ file gives a point for each vertex line with three numbers, in order; where
/// any line has six, each has the colour that follows its position, or grey, and else
/// none has a colour.
pub proof fn vertex_lines_make_points(lines: Seq<Vec<Option<u32>>>) -> (rows: Seq<int>)
    ensures
        vertices_from(lines, clouds::obj_points_of(lines), rows),
        forall|k: int|
            0 <= k < rows.len() ==> clouds::obj_points_of(lines)[k].color == (if exists|i: int|
                0 <= i < lines.len() && clouds::numbers((#[trigger] lines[i])@).len() >= 6 {
                Some(shade(clouds::numbers(lines[#[trigger] rows[k]]@)))
            } else {
                None
            }),
{
    let rows = vertices_of_lines(lines);
    let points = clouds::obj_points_of(lines);
    if !clouds::any_colored(lines) {
        assert forall|k: int| 0 <= k < rows.len() implies points[k].position
            == clouds::vertices_of(lines)[k].position && points[k].normal is None
            && points[k].color is None && 0 <= #[trigger] rows[k] by {
            let r = rows[k];
            assert(0 <= r < lines.len());
            assert(clouds::vertices_of(lines)[k].normal is None);
            assert(points[k] == clouds::uncolored(clouds::vertices_of(lines)[k]));
        }
    }
    rows
}

/// The words of a line count exactly where the first is `v`; they follow it.
pub proof fn vertex_lines_begin_with_v(lines: Seq<Seq<Seq<char>>>)
    ensures
        clouds::vertex_words(lines) == lines.filter(
            |w: Seq<Seq<char>>| w.len() > 0 && w[0] == "v"@,
        ).map_values(|w: Seq<Seq<char>>| w.skip(1)),
    decreases lines.len(),
{
    let is = |w: Seq<Seq<char>>| w.len() > 0 && w[0] == "v"@;
    let of = |w: Seq<Seq<char>>| w.skip(1);
    reveal(Seq::filter);
    if lines.len() > 0 {
        vertex_lines_begin_with_v(lines.drop_last());
        let before = lines.drop_last().filter(is);
        if is(lines.last()) {
            assert(before.push(lines.last()).map_values(of) =~= before.map_values(of).push(
                lines.last().skip(1),
            ));
        }
    } else {
        assert(lines.filter(is).map_values(of) =~= Seq::<Seq<Seq<char>>>::empty());
    }
}

/// The numbers of a line of cameras that count are the finite ones that its fields
/// spell, in order.
pub proof fn finite_numbers_are_what_is_spelled(line: Seq<Option<u32>>)
    ensures
        clouds::finite_numbers(line) == line.filter(
            |w: Option<u32>| w is Some && ieee::finite(w->0),
        ).map_values(|w: Option<u32>| w->0),
    decreases line.len(),
{
    let is = |w: Option<u32>| w is Some && ieee::finite(w->0);
    let of = |w: Option<u32>| w->0;
    reveal(Seq::filter);
    if line.len() > 0 {
        finite_numbers_are_what_is_spelled(line.drop_last());
        let before = line.drop_last().filter(is);
        if is(line.last()) {
            assert(before.push(line.last()).map_values(of) =~= before.map_values(of).push(
                line.last()->0,
            ));
        }
    } else {
        assert(line.filter(is).map_values(of) =~= Seq::<u32>::empty());
    }
}

/// A list of cameras gives one position for each line with three finite numbers, in
/// order: its first three.
pub proof fn camera_lines_make_positions(lines: Seq<Vec<Option<u32>>>) -> (rows: Seq<int>)
    ensures
        rows.len() == clouds::centers_of(lines).len(),
        forall|j: int, k: int|
            0 <= j < k < rows.len() ==> #[trigger] rows[j] < #[trigger] rows[k],
        forall|k: int|
            0 <= k < rows.len() ==> 0 <= #[trigger] rows[k] < lines.len() && {
                let v = clouds::finite_numbers(lines[rows[k]]@);
                v.len() >= 3 && clouds::centers_of(lines)[k] == (v[0], v[1], v[2])
            },
        forall|r: int|
            0 <= r < lines.len() && clouds::finite_numbers((#[trigger] lines[r])@).len() >= 3
                ==> rows.contains(r),
    decreases lines.len(),
{
    let n = lines.len() as int;
    if n == 0 {
        Seq::empty()
    } else {
        let short = lines.drop_last();
        let before = camera_lines_make_positions(short);
        let v = clouds::finite_numbers(lines.last()@);
        let rows = if v.len() >= 3 {
            before.push(n - 1)
        } else {
            before
        };
        assert forall|k: int| 0 <= k < rows.len() implies 0 <= #[trigger] rows[k] < n && {
            let v = clouds::finite_numbers(lines[rows[k]]@);
            v.len() >= 3 && clouds::centers_of(lines)[k] == (v[0], v[1], v[2])
        } by {
            if k < before.len() {
                assert(rows[k] == before[k]);
                assert(lines[before[k]] == short[before[k]]);
                assert(clouds::centers_of(lines)[k] == clouds::centers_of(short)[k]);
            }
        }
        assert forall|r: int|
            0 <= r < n && clouds::finite_numbers(
                (#[trigger] lines[r])@,
            ).len() >= 3 implies rows.contains(r) by {
            if r < n - 1 {
                assert(short[r] == lines[r]);
                assert(before.contains(r));
                let k = choose|k: int| 0 <= k < before.len() && before[k] == r;
                assert(rows[k] == r);
            } else {
                assert(rows[before.len() as int] == r);
            }
        }
        rows
    }
}

/// A list of cameras is read line by line, without those that are blank or begin, after
/// spaces, with `#`.
pub proof fn comments_are_passed_over(lines: Seq<Seq<char>>)
    ensures
        clouds::camera_fields_of(lines) == lines.filter(
            |l: Seq<char>|
                text::trim_start(l).len() > 0 && text::trim_start(l)[0] != '#',
        ).map_values(|l: Seq<char>| text::fields(l, true)),
    decreases lines.len(),
{
    let is = |l: Seq<char>| text::trim_start(l).len() > 0 && text::trim_start(l)[0] != '#';
    let of = |l: Seq<char>| text::fields(l, true);
    reveal(Seq::filter);
    if lines.len() > 0 {
        comments_are_passed_over(lines.drop_last());
        let before = lines.drop_last().filter(is);
        if is(lines.last()) {
            assert(before.push(lines.last()).map_values(of) =~= before.map_values(of).push(
                text::fields(lines.last(), true),
            ));
        }
    } else {
        assert(lines.filter(is).map_values(of) =~= Seq::<Seq<Seq<char>>>::empty());
    }
}

/// A cloud holds the points in their order, each with its own position, colour and
/// normal; and it has normals if there are points and each of them has one.
pub proof fn clouds_hold_their_points(points: Seq<SinglePoint>, c: PointCloud, i: int)
    requires
        clouds::is_cloud(points, c),
        0 <= i < points.len(),
    ensures
        c.positions@.len() == points.len() && c.colors@.len() == points.len(),
        c.positions@[i] == points[i].position,
        c.colors@[i]@ == clouds::cloud_color(points[i]),
        c.normals matches Some(n) ==> n@.len() == points.len() && points[i].normal == Some(n@[i]),
        c.normals is Some <==> forall|k: int|
            0 <= k < points.len() ==> (#[trigger] points[k]).normal is Some,
{
    match c.normals {
        Some(n) => {
            assert(points[i].normal is Some);
        },
        None => {},
    }
}

/// Files are told by these extensions, in letters of any case, and no others.
pub proof fn formats_are_told_by_extension(e: Seq<char>)
    ensures
        clouds::format_of(Some(e)) == Some(clouds::CloudFormat::Ply) <==> text::lower(e) == "ply"@,
        clouds::format_of(Some(e)) == Some(clouds::CloudFormat::Obj) <==> text::lower(e) == "obj"@,
        clouds::format_of(None) is None,
{
    reveal_strlit("ply");
    reveal_strlit("obj");
    assert("ply"@[0] != "obj"@[0]);
}

/// A line that is not UTF-8 is an error if it is reached before all declared points
/// are read, and nothing else is.
pub proof fn unreadable_lines_are_errors(
    lines: Seq<Option<Vec<Option<u32>>>>,
    c: PointColumns,
    width: int,
    count: int,
    i: int,
)
    requires
        0 <= i < lines.len(),
    ensures
        (forall|k: int| 0 <= k < lines.len() ==> (#[trigger] lines[k]) is Some)
            ==> clouds::points_of_lines(lines, c, width, count) is Some,
        lines[i] is None && (clouds::points_of_lines(lines.take(i), c, width, count) matches Some(p)
            ==> !(count > 0 && p.len() == count)) ==> clouds::points_of_lines(
            lines,
            c,
            width,
            count,
        ) is None,
    decreases lines.len(),
{
    let short = lines.drop_last();
    if forall|k: int| 0 <= k < lines.len() ==> (#[trigger] lines[k]) is Some {
        all_lines_are_read(lines, c, width, count);
    }
    if i < short.len() {
        assert(short.take(i) =~= lines.take(i));
        unreadable_lines_are_errors(short, c, width, count, i);
    } else {
        assert(short =~= lines.take(i));
    }
}

proof fn all_lines_are_read(
    lines: Seq<Option<Vec<Option<u32>>>>,
    c: PointColumns,
    width: int,
    count: int,
)
    requires
        forall|k: int| 0 <= k < lines.len() ==> (#[trigger] lines[k]) is Some,
    ensures
        clouds::points_of_lines(lines, c, width, count) is Some,
    decreases lines.len(),
{
    if lines.len() > 0 {
        let short = lines.drop_last();
        assert forall|k: int| 0 <= k < short.len() implies (#[trigger] short[k]) is Some by {
            assert(short[k] == lines[k]);
        }
        all_lines_are_read(short, c, width, count);
        assert(lines[lines.len() - 1] is Some);
    }
}

/// The lines of a file are cut at its line feeds, in order, and each is text if its
/// bytes are UTF-8.
pub proof fn lines_are_cut_at_line_feeds(b: Seq<u8>, k: int)
    requires
        0 <= k < text::rows(b, 10).len(),
    ensures
        clouds::text_lines(b).len() == text::rows(b, 10).len(),
        clouds::word_lines(b).len() == text::rows(b, 10).len(),
        ({
            let row = text::rows(b, 10)[k];
            &&& vstd::utf8::valid_utf8(row) ==> clouds::text_lines(b)[k] == Some(
                vstd::utf8::decode_utf8(row),
            )
            &&& vstd::utf8::valid_utf8(row) ==> clouds::word_lines(b)[k] == Some(
                text::words(vstd::utf8::decode_utf8(row)),
            )
            &&& !vstd::utf8::valid_utf8(row) ==> clouds::text_lines(b)[k] is None
                && clouds::word_lines(b)[k] is None
        }),
{
}

/// A point cloud is refused if its header is, if a coordinate is missing, or if it is
/// binary and has no rows or too few bytes for them; and for no other reason.
pub proof fn clouds_are_refused_for_these_reasons(b: Seq<u8>)
    ensures
        ply::header_of(b, true) matches Err(e) ==> clouds::point_file_error(b) == Some(e),
        ply::header_of(b, true) matches Ok((m, body)) ==> {
            let why = clouds::point_file_error(b);
            let missing = clouds::point_columns(m.props) is Err;
            let short = b.len() < body + m.count->0 * m.stride;
            &&& missing ==> (why matches Some(ply::PlyError::MissingProperty(name, _))
                && clouds::point_columns(m.props) == Err::<PointColumns, Seq<char>>(name))
            &&& !missing && m.ascii ==> why is None
            &&& !missing && !m.ascii ==> (why is None <==> !short && m.count->0 > 0)
            &&& !missing && !m.ascii && short ==> why == Some(ply::PlyError::<Seq<char>>::Truncated)
            &&& !missing && !m.ascii && !short && m.count->0 == 0 ==> why == Some(
                ply::PlyError::<Seq<char>>::Empty,
            )
        },
{
}

/// Lines are all text if none of them is unreadable, and their texts and words are
/// their own, each in its place.
pub proof fn lines_are_seen_as_they_are(
    lines: Seq<Option<Seq<char>>>,
    read: Seq<Vec<String>>,
    k: int,
)
    ensures
        clouds::all_text(lines) <==> !lines.contains(None),
        clouds::texts(lines).len() == lines.len(),
        clouds::words_of(clouds::texts(lines)).len() == lines.len(),
        0 <= k < lines.len() && lines[k] is Some ==> clouds::texts(lines)[k] == lines[k]->0
            && clouds::words_of(clouds::texts(lines))[k] == text::fields(lines[k]->0, false),
        clouds::lists_view(read).len() == read.len(),
        0 <= k < read.len() ==> clouds::lists_view(read)[k] == text::views(read[k]@),
{
    if !lines.contains(None) {
        assert forall|i: int| 0 <= i < lines.len() implies (#[trigger] lines[i]) is Some by {
            if lines[i] is None {
                assert(lines.contains(lines[i]));
            }
        }
    }
}

} // verus!
