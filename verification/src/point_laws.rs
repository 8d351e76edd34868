//! What holds of every point cloud: neither the order of its properties nor the
//! case of their names has a part in the points, and a colour or a normal takes
//! all three of its properties.

use crate::ply;
use crate::point_cloud::{
    self as clouds, PointCloud, PointColumns, PointFile, RawPoint, SinglePoint,
};
use crate::sorting;
use crate::text;
use vstd::prelude::*;

verus! {

/// Is there a property with the name, letters in any case?
pub open spec fn declares(props: Seq<ply::PropModel>, name: Seq<char>) -> bool {
    exists|k: int| 0 <= k < props.len() && text::lower(#[trigger] props[k].0) == text::lower(name)
}

/// Are the names different, letters in any case?
pub open spec fn names_differ(props: Seq<ply::PropModel>) -> bool {
    forall|k: int, l: int|
        0 <= k < l < props.len() ==> text::lower(#[trigger] props[k].0) != text::lower(
            #[trigger] props[l].0,
        )
}

/// Does `order` list each of the first `n` places once?
pub open spec fn is_order(order: Seq<int>, n: int) -> bool {
    &&& order.len() == n
    &&& forall|k: int| 0 <= k < n ==> 0 <= #[trigger] order[k] < n
    &&& forall|k: int, l: int| 0 <= k < l < n ==> #[trigger] order[k] != #[trigger] order[l]
    &&& forall|i: int| 0 <= i < n ==> #[trigger] order.contains(i)
}

/// Are the properties `q` those of `p` in the given order, in names whose letters
/// may differ in case?
pub open spec fn reordered(
    p: Seq<ply::PropModel>,
    q: Seq<ply::PropModel>,
    order: Seq<int>,
) -> bool {
    &&& p.len() == q.len()
    &&& is_order(order, p.len() as int)
    &&& forall|k: int|
        0 <= k < q.len() ==> text::lower((#[trigger] q[k]).0) == text::lower(p[order[k]].0)
            && q[k].2 == p[order[k]].2
}

proof fn index_named_finds(props: Seq<ply::PropModel>, name: Seq<char>)
    ensures
        -1 <= clouds::index_named(props, name) < props.len(),
        clouds::index_named(props, name) >= 0 ==> text::lower(
            props[clouds::index_named(props, name)].0,
        ) == text::lower(name),
        clouds::index_named(props, name) >= 0 <==> declares(props, name),
    decreases props.len(),
{
    if props.len() > 0 {
        let rest = props.skip(1);
        index_named_finds(rest, name);
        if text::lower(props[0].0) != text::lower(name) {
            if declares(props, name) {
                let k = choose|k: int|
                    0 <= k < props.len() && text::lower(#[trigger] props[k].0) == text::lower(name);
                assert(rest[k - 1] == props[k]);
            }
            if declares(rest, name) {
                let k = choose|k: int|
                    0 <= k < rest.len() && text::lower(#[trigger] rest[k].0) == text::lower(name);
                assert(rest[k] == props[k + 1]);
            }
        }
    }
}

/// Does place `j` among the reordered properties stand for place `i`, or are both
/// none?
pub open spec fn stands_for(order: Seq<int>, j: int, i: int) -> bool {
    if i < 0 {
        j < 0
    } else {
        0 <= j < order.len() && order[j] == i
    }
}

proof fn name_moves(
    p: Seq<ply::PropModel>,
    q: Seq<ply::PropModel>,
    order: Seq<int>,
    name: Seq<char>,
)
    requires
        names_differ(p),
        reordered(p, q, order),
    ensures
        stands_for(order, clouds::index_named(q, name), clouds::index_named(p, name)),
        clouds::index_named(p, name) < p.len(),
{
    let i = clouds::index_named(p, name);
    let j = clouds::index_named(q, name);
    index_named_finds(p, name);
    index_named_finds(q, name);
    if i >= 0 {
        assert(order.contains(i));
        let k = choose|k: int| 0 <= k < order.len() && order[k] == i;
        assert(text::lower(q[k].0) == text::lower(name));
        assert(declares(q, name));
        assert(text::lower(q[j].0) == text::lower(p[order[j]].0));
        assert(order[j] == i);
    } else if j >= 0 {
        assert(text::lower(p[order[j]].0) == text::lower(name));
        assert(declares(p, name));
    }
}

proof fn any_name_moves(
    p: Seq<ply::PropModel>,
    q: Seq<ply::PropModel>,
    order: Seq<int>,
    names: Seq<Seq<char>>,
)
    requires
        names_differ(p),
        reordered(p, q, order),
    ensures
        stands_for(order, clouds::index_of_any(q, names), clouds::index_of_any(p, names)),
        clouds::index_of_any(p, names) < p.len(),
    decreases names.len(),
{
    if names.len() > 0 {
        name_moves(p, q, order, names[0]);
        any_name_moves(p, q, order, names.skip(1));
    }
}

/// Do three places among the reordered properties stand for three others?
pub open spec fn three_stand_for(
    order: Seq<int>,
    d: (usize, usize, usize),
    c: (usize, usize, usize),
) -> bool {
    &&& stands_for(order, d.0 as int, c.0 as int)
    &&& stands_for(order, d.1 as int, c.1 as int)
    &&& stands_for(order, d.2 as int, c.2 as int)
}

/// Are the columns `d` of the reordered properties the columns `c`?
pub open spec fn columns_stand_for(order: Seq<int>, d: PointColumns, c: PointColumns) -> bool {
    &&& three_stand_for(order, d.position, c.position)
    &&& match (d.color, c.color) {
        (Some(t), Some(u)) => three_stand_for(order, t, u),
        (None, None) => true,
        _ => false,
    }
    &&& match (d.normal, c.normal) {
        (Some(t), Some(u)) => three_stand_for(order, t, u),
        (None, None) => true,
        _ => false,
    }
    &&& d.integer == c.integer
}

/// Properties in another order, or in names with letters in another case, give the
/// same columns at their new places, or lack the same coordinate.
pub proof fn columns_follow_names(
    p: Seq<ply::PropModel>,
    q: Seq<ply::PropModel>,
    order: Seq<int>,
)
    requires
        names_differ(p),
        reordered(p, q, order),
        p.len() <= usize::MAX,
    ensures
        match (clouds::point_columns(p), clouds::point_columns(q)) {
            (Ok(c), Ok(d)) => columns_stand_for(order, d, c),
            (Err(a), Err(b)) => a == b,
            _ => false,
        },
{
    name_moves(p, q, order, "x"@);
    name_moves(p, q, order, "y"@);
    name_moves(p, q, order, "z"@);
    any_name_moves(p, q, order, seq!["red"@, "r"@, "diffuse_red"@]);
    any_name_moves(p, q, order, seq!["green"@, "g"@, "diffuse_green"@]);
    any_name_moves(p, q, order, seq!["blue"@, "b"@, "diffuse_blue"@]);
    any_name_moves(p, q, order, seq!["nx"@, "normal_x"@]);
    any_name_moves(p, q, order, seq!["ny"@, "normal_y"@]);
    any_name_moves(p, q, order, seq!["nz"@, "normal_z"@]);
}

/// The value of property `k` in row `r`.
pub open spec fn cell_of(
    b: Seq<u8>,
    body: int,
    m: ply::HeaderModel,
    r: int,
    k: int,
) -> ply::PropValue {
    ply::value_at(m.props[k].2, b, body + r * m.stride, m.props[k].1)
}

/// Do two binary files hold the same rows, but for the order of the properties and
/// the case of their names?
pub open spec fn same_rows(a: Seq<u8>, b: Seq<u8>, order: Seq<int>) -> bool {
    &&& ply::header_of(a, true) matches Ok((m, at)) && ply::header_of(b, true) matches Ok(
        (n, bt),
    ) && {
        &&& names_differ(m.props)
        &&& reordered(m.props, n.props, order)
        &&& m.count == n.count
        &&& forall|r: int, k: int|
            0 <= r < m.count->0 && 0 <= k < n.props.len() ==> #[trigger] cell_of(b, bt, n, r, k)
                == cell_of(a, at, m, r, order[k])
    }
}

proof fn triple_moves(
    a: Seq<u8>,
    b: Seq<u8>,
    order: Seq<int>,
    r: int,
    c: (usize, usize, usize),
    d: (usize, usize, usize),
)
    requires
        same_rows(a, b, order),
        ply::header_of(a, true) matches Ok((m, at)) && 0 <= r < m.count->0,
        three_stand_for(order, d, c),
    ensures
        ({
            let (m, at) = ply::header_of(a, true)->Ok_0;
            let (n, bt) = ply::header_of(b, true)->Ok_0;
            clouds::binary_triple(b, bt + r * n.stride, n.props, d) == clouds::binary_triple(
                a,
                at + r * m.stride,
                m.props,
                c,
            )
        }),
{
    let (m, at) = ply::header_of(a, true)->Ok_0;
    let (n, bt) = ply::header_of(b, true)->Ok_0;
    assert(cell_of(b, bt, n, r, d.0 as int) == cell_of(a, at, m, r, c.0 as int));
    assert(cell_of(b, bt, n, r, d.1 as int) == cell_of(a, at, m, r, c.1 as int));
    assert(cell_of(b, bt, n, r, d.2 as int) == cell_of(a, at, m, r, c.2 as int));
}

/// Two binary files that differ in the order of their properties, or in the case
/// of their names, hold the same points.
pub proof fn binary_points_have_no_order(
    a: Seq<u8>,
    b: Seq<u8>,
    order: Seq<int>,
    f: PointFile,
    g: PointFile,
)
    requires
        same_rows(a, b, order),
        clouds::point_file(a, f),
        clouds::point_file(b, g),
        f.body is Points,
        g.body is Points,
    ensures
        f.columns.integer == g.columns.integer,
        f.body->Points_0@ == g.body->Points_0@,
{
    let (m, at) = ply::header_of(a, true)->Ok_0;
    let (n, bt) = ply::header_of(b, true)->Ok_0;
    columns_follow_names(m.props, n.props, order);
    let (p, q) = (f.body->Points_0@, g.body->Points_0@);
    assert forall|r: int| 0 <= r < p.len() implies p[r] == q[r] by {
        triple_moves(a, b, order, r, f.columns.position, g.columns.position);
        if f.columns.color is Some {
            triple_moves(a, b, order, r, f.columns.color->0, g.columns.color->0);
        }
        if f.columns.normal is Some {
            triple_moves(a, b, order, r, f.columns.normal->0, g.columns.normal->0);
        }
    }
    assert(p =~= q);
}

/// Do two text files hold the same numbers, line by line, but for the order of the
/// properties?
pub open spec fn same_lines(
    a: Seq<Option<Vec<Option<u32>>>>,
    b: Seq<Option<Vec<Option<u32>>>>,
    order: Seq<int>,
) -> bool {
    &&& a.len() == b.len()
    &&& forall|i: int|
        0 <= i < a.len() ==> match (#[trigger] a[i], b[i]) {
            (Some(l), Some(k)) => numbers_move(clouds::numbers(l@), clouds::numbers(k@), order),
            (None, None) => true,
            _ => false,
        }
}

/// Are the numbers of a line those of another at their new places, or both too few
/// for a row?
pub open spec fn numbers_move(v: Seq<u32>, w: Seq<u32>, order: Seq<int>) -> bool {
    &&& v.len() >= order.len() <==> w.len() >= order.len()
    &&& v.len() >= order.len() ==> forall|k: int|
        0 <= k < order.len() ==> #[trigger] w[k] == v[order[k]]
}

proof fn lines_move(
    a: Seq<Option<Vec<Option<u32>>>>,
    b: Seq<Option<Vec<Option<u32>>>>,
    order: Seq<int>,
    c: PointColumns,
    d: PointColumns,
    count: int,
)
    requires
        same_lines(a, b, order),
        columns_stand_for(order, d, c),
    ensures
        clouds::points_of_lines(b, d, order.len() as int, count) == clouds::points_of_lines(
            a,
            c,
            order.len() as int,
            count,
        ),
    decreases a.len(),
{
    if a.len() > 0 {
        assert(same_lines(a.drop_last(), b.drop_last(), order)) by {
            assert forall|i: int| 0 <= i < a.drop_last().len() implies match (
                #[trigger] a.drop_last()[i],
                b.drop_last()[i],
            ) {
                (Some(l), Some(k)) => numbers_move(clouds::numbers(l@), clouds::numbers(k@), order),
                (None, None) => true,
                _ => false,
            } by {
                assert(a[i] == a.drop_last()[i]);
            }
        }
        lines_move(a.drop_last(), b.drop_last(), order, c, d, count);
        assert(a[a.len() - 1] == a.last());
        if let (Some(l), Some(k)) = (a.last(), b.last()) {
            let (v, w) = (clouds::numbers(l@), clouds::numbers(k@));
            if v.len() >= order.len() {
                assert(clouds::text_point(w, d) == clouds::text_point(v, c));
            }
        }
    }
}

/// Lines whose numbers follow the order of the properties hold the same points.
proof fn text_points_have_no_order(
    p: Seq<ply::PropModel>,
    q: Seq<ply::PropModel>,
    order: Seq<int>,
    a: Seq<Option<Vec<Option<u32>>>>,
    b: Seq<Option<Vec<Option<u32>>>>,
    c: PointColumns,
    d: PointColumns,
    count: int,
)
    requires
        names_differ(p),
        reordered(p, q, order),
        p.len() <= usize::MAX,
        same_lines(a, b, order),
        clouds::point_columns(p) == Ok::<PointColumns, Seq<char>>(c),
        clouds::point_columns(q) == Ok::<PointColumns, Seq<char>>(d),
    ensures
        d.integer == c.integer,
        clouds::points_of_lines(b, d, q.len() as int, count) == clouds::points_of_lines(
            a,
            c,
            p.len() as int,
            count,
        ),
{
    columns_follow_names(p, q, order);
    lines_move(a, b, order, c, d, count);
}

/// The sizes of the properties.
spec fn sizes(props: Seq<ply::PropModel>) -> Seq<int> {
    props.map_values(|p: ply::PropModel| ply::type_size(p.2))
}

proof fn row_size_is_sum(props: Seq<ply::PropModel>, v: int)
    ensures
        sizes(props).fold_right(|x: int, y: int| x + y, v) == ply::row_size(props) + v,
    decreases props.len(),
{
    if props.len() > 0 {
        assert(sizes(props).drop_last() =~= sizes(props.drop_last()));
        row_size_is_sum(props.drop_last(), sizes(props).last() + v);
    }
}

/// Rows with the same properties in another order are as long.
proof fn reordered_rows_are_as_long(
    p: Seq<ply::PropModel>,
    q: Seq<ply::PropModel>,
    order: Seq<int>,
)
    requires
        reordered(p, q, order),
        p.len() <= usize::MAX,
    ensures
        ply::row_size(q) == ply::row_size(p),
{
    let places = order.map_values(|k: int| k as usize);
    assert(sorting::each_once(places, p.len() as int)) by {
        assert forall|a: int, b: int| 0 <= a < b < p.len() implies #[trigger] places[a]
            != #[trigger] places[b] by {
            assert(order[a] != order[b]);
        }
        assert forall|i: int| 0 <= i < p.len() implies #[trigger] sorting::listed(places, i) by {
            assert(order.contains(i));
            let k = choose|k: int| 0 <= k < order.len() && order[k] == i;
            assert(places[k] == i);
        }
    }
    sorting::arranged_keeps_items(sizes(p), places);
    assert(sorting::arranged(sizes(p), places) =~= sizes(q));
    let plus = |x: int, y: int| x + y;
    vstd::seq_lib::lemma_fold_right_permutation(sizes(p), sizes(q), plus, 0);
    row_size_is_sum(p, 0);
    row_size_is_sum(q, 0);
}

/// Two files that differ in the order of their properties, or in the case of their
/// names, with bodies as long, are refused for the same reason or not at all.
pub proof fn clouds_are_refused_alike(a: Seq<u8>, b: Seq<u8>, order: Seq<int>)
    requires
        ply::header_of(a, true) matches Ok((m, at)) && ply::header_of(b, true) matches Ok((n, bt))
            && {
            &&& names_differ(m.props)
            &&& reordered(m.props, n.props, order)
            &&& m.props.len() <= usize::MAX
            &&& m.count == n.count
            &&& m.ascii == n.ascii
            &&& a.len() - at == b.len() - bt
        },
    ensures
        clouds::point_file_error(b) == clouds::point_file_error(a),
{
    let (m, at) = ply::header_of(a, true)->Ok_0;
    let (n, bt) = ply::header_of(b, true)->Ok_0;
    columns_follow_names(m.props, n.props, order);
    ply::row_holds_its_properties(a, true);
    ply::row_holds_its_properties(b, true);
    reordered_rows_are_as_long(m.props, n.props, order);
}

/// Three values in singles.
pub open spec fn three_singles(
    t: (ply::PropValue, ply::PropValue, ply::PropValue),
    single: spec_fn(ply::PropValue) -> u32,
) -> Seq<u32> {
    seq![single(t.0), single(t.1), single(t.2)]
}

/// Are these the points in singles? `single` rounds a stored value, and `channel`
/// scales one, from channels that run to 255 or to one.
pub open spec fn in_singles(
    raw: Seq<RawPoint>,
    integer: bool,
    single: spec_fn(ply::PropValue) -> u32,
    channel: spec_fn(bool, ply::PropValue) -> u32,
    out: Seq<SinglePoint>,
) -> bool {
    let scaled = |v: ply::PropValue| channel(clouds::byte_channels(raw, integer), v);
    &&& out.len() == raw.len()
    &&& forall|i: int|
        0 <= i < raw.len() ==> {
            &&& (#[trigger] out[i]).position@ == three_singles(raw[i].position, single)
            &&& match raw[i].color {
                Some(c) => out[i].color matches Some(d) && d@ == three_singles(c, scaled),
                None => out[i].color is None,
            }
            &&& match raw[i].normal {
                Some(c) => out[i].normal matches Some(d) && d@ == three_singles(c, single),
                None => out[i].normal is None,
            }
        }
}

/// Do the clouds hold the same positions, colours and normals?
pub open spec fn same_cloud(c: PointCloud, d: PointCloud) -> bool {
    &&& c.positions@ == d.positions@
    &&& c.colors@ == d.colors@
    &&& match (c.normals, d.normals) {
        (Some(m), Some(n)) => m@ == n@,
        (None, None) => true,
        _ => false,
    }
}

proof fn same_points_make_same_cloud(
    raw: Seq<RawPoint>,
    integer: bool,
    single: spec_fn(ply::PropValue) -> u32,
    channel: spec_fn(bool, ply::PropValue) -> u32,
    p: Seq<SinglePoint>,
    q: Seq<SinglePoint>,
    c: PointCloud,
    d: PointCloud,
)
    requires
        in_singles(raw, integer, single, channel, p),
        in_singles(raw, integer, single, channel, q),
        clouds::is_cloud(p, c),
        clouds::is_cloud(q, d),
    ensures
        same_cloud(c, d),
{
    assert forall|i: int| 0 <= i < p.len() implies #[trigger] p[i] == q[i] by {
        assert(p[i].position =~= q[i].position);
        if p[i].color is Some {
            assert(p[i].color->0 =~= q[i].color->0);
        }
        if p[i].normal is Some {
            assert(p[i].normal->0 =~= q[i].normal->0);
        }
    }
    assert(p =~= q);
    assert forall|i: int| 0 <= i < p.len() implies #[trigger] c.colors@[i] == d.colors@[i] by {
        assert(c.colors@[i]@ == d.colors@[i]@);
        assert(c.colors@[i] =~= d.colors@[i]);
    }
    assert(c.colors@ =~= d.colors@);
}

/// Two binary files that differ in the order of their properties, or in the case
/// of their names, make the same cloud, however values are rounded and scaled.
pub proof fn binary_clouds_have_no_order(
    a: Seq<u8>,
    b: Seq<u8>,
    order: Seq<int>,
    f: PointFile,
    g: PointFile,
    single: spec_fn(ply::PropValue) -> u32,
    channel: spec_fn(bool, ply::PropValue) -> u32,
    p: Seq<SinglePoint>,
    q: Seq<SinglePoint>,
    c: PointCloud,
    d: PointCloud,
)
    requires
        same_rows(a, b, order),
        clouds::point_file(a, f),
        clouds::point_file(b, g),
        f.body is Points,
        g.body is Points,
        in_singles(f.body->Points_0@, f.columns.integer, single, channel, p),
        in_singles(g.body->Points_0@, g.columns.integer, single, channel, q),
        clouds::is_cloud(p, c),
        clouds::is_cloud(q, d),
    ensures
        same_cloud(c, d),
{
    binary_points_have_no_order(a, b, order, f, g);
    same_points_make_same_cloud(
        f.body->Points_0@,
        f.columns.integer,
        single,
        channel,
        p,
        q,
        c,
        d,
    );
}

/// Are the numbers of each line those that its words spell, where they spell one?
pub open spec fn spelled_by(
    words: Seq<Option<Seq<Seq<char>>>>,
    spell: spec_fn(Seq<char>) -> Option<u32>,
    lines: Seq<Option<Vec<Option<u32>>>>,
) -> bool {
    &&& lines.len() == words.len()
    &&& forall|i: int|
        0 <= i < words.len() ==> match #[trigger] words[i] {
            Some(w) => lines[i] matches Some(l) && l@ == w.map_values(spell),
            None => lines[i] is None,
        }
}

/// Are the words of a line those of another at their new places, or the same and
/// too few for a row?
pub open spec fn words_move(v: Seq<Seq<char>>, w: Seq<Seq<char>>, order: Seq<int>) -> bool {
    if v.len() < order.len() {
        w == v
    } else {
        &&& v.len() == order.len()
        &&& w.len() == order.len()
        &&& forall|k: int| 0 <= k < order.len() ==> #[trigger] w[k] == v[order[k]]
    }
}

/// Do two text files hold the same words, line by line, but for the order of the
/// properties?
pub open spec fn same_words(
    a: Seq<Option<Seq<Seq<char>>>>,
    b: Seq<Option<Seq<Seq<char>>>>,
    order: Seq<int>,
) -> bool {
    &&& a.len() == b.len()
    &&& forall|i: int|
        0 <= i < a.len() ==> match (#[trigger] a[i], b[i]) {
            (Some(v), Some(w)) => words_move(v, w, order),
            (None, None) => true,
            _ => false,
        }
}

/// Do two text files hold the same rows, but for the order of the properties and
/// the case of their names?
pub open spec fn same_text(a: Seq<u8>, b: Seq<u8>, order: Seq<int>) -> bool {
    &&& ply::header_of(a, true) matches Ok((m, at)) && ply::header_of(b, true) matches Ok(
        (n, bt),
    ) && {
        &&& names_differ(m.props)
        &&& reordered(m.props, n.props, order)
        &&& m.count == n.count
        &&& same_words(clouds::word_lines(a.skip(at)), clouds::word_lines(b.skip(bt)), order)
    }
}

proof fn numbers_of_full_line(line: Seq<Option<u32>>)
    ensures
        clouds::numbers(line).len() <= line.len(),
        clouds::numbers(line).len() == line.len() <==> forall|k: int|
            0 <= k < line.len() ==> (#[trigger] line[k]) is Some,
        clouds::numbers(line).len() == line.len() ==> forall|k: int|
            0 <= k < line.len() ==> #[trigger] clouds::numbers(line)[k] == line[k]->0,
    decreases line.len(),
{
    if line.len() > 0 {
        let short = line.drop_last();
        numbers_of_full_line(short);
        assert(forall|k: int| 0 <= k < short.len() ==> #[trigger] line[k] == short[k]);
        if clouds::numbers(line).len() == line.len() {
            assert(line[line.len() - 1] is Some);
            assert(clouds::numbers(short).len() == short.len());
            assert forall|k: int| 0 <= k < line.len() implies (#[trigger] line[k]) is Some by {
                if k < short.len() {
                    assert(short[k] is Some);
                }
            }
        } else if forall|k: int| 0 <= k < line.len() ==> (#[trigger] line[k]) is Some {
            assert(forall|k: int| 0 <= k < short.len() ==> (#[trigger] short[k]) is Some);
            assert(line[line.len() - 1] is Some);
        }
    }
}

proof fn spelled_line_moves(
    v: Seq<Seq<char>>,
    w: Seq<Seq<char>>,
    order: Seq<int>,
    spell: spec_fn(Seq<char>) -> Option<u32>,
)
    requires
        is_order(order, order.len() as int),
        words_move(v, w, order),
    ensures
        numbers_move(
            clouds::numbers(v.map_values(spell)),
            clouds::numbers(w.map_values(spell)),
            order,
        ),
{
    let (a, b) = (v.map_values(spell), w.map_values(spell));
    numbers_of_full_line(a);
    numbers_of_full_line(b);
    if v.len() >= order.len() {
        assert(forall|k: int| 0 <= k < order.len() ==> #[trigger] b[k] == a[order[k]]);
        if forall|k: int| 0 <= k < a.len() ==> (#[trigger] a[k]) is Some {
            assert(forall|k: int| 0 <= k < b.len() ==> (#[trigger] b[k]) is Some);
            assert forall|k: int| 0 <= k < order.len() implies #[trigger] clouds::numbers(b)[k]
                == clouds::numbers(a)[order[k]] by {
                assert(b[k] == a[order[k]]);
            }
        } else {
            let i = choose|i: int| 0 <= i < a.len() && !((#[trigger] a[i]) is Some);
            assert(order.contains(i));
            let k = choose|k: int| 0 <= k < order.len() && order[k] == i;
            assert(b[k] == a[i]);
        }
    }
}

/// Two text files that differ in the order of their properties, or in the case of
/// their names, hold the same points, or fail alike, however numbers are spelled.
pub proof fn text_files_have_no_order(
    a: Seq<u8>,
    b: Seq<u8>,
    order: Seq<int>,
    f: PointFile,
    g: PointFile,
    spell: spec_fn(Seq<char>) -> Option<u32>,
    k: Seq<Option<Vec<Option<u32>>>>,
    l: Seq<Option<Vec<Option<u32>>>>,
)
    requires
        same_text(a, b, order),
        clouds::point_file(a, f),
        clouds::point_file(b, g),
        f.body is Lines,
        g.body is Lines,
        spelled_by(clouds::word_views(f.body->Lines_0@), spell, k),
        spelled_by(clouds::word_views(g.body->Lines_0@), spell, l),
    ensures
        g.columns.integer == f.columns.integer,
        clouds::points_of_lines(l, g.columns, g.width as int, g.count as int)
            == clouds::points_of_lines(k, f.columns, f.width as int, f.count as int),
{
    let (m, at) = ply::header_of(a, true)->Ok_0;
    let (n, bt) = ply::header_of(b, true)->Ok_0;
    let (v, w) = (clouds::word_lines(a.skip(at)), clouds::word_lines(b.skip(bt)));
    assert forall|i: int| 0 <= i < k.len() implies match (#[trigger] k[i], l[i]) {
        (Some(x), Some(y)) => numbers_move(clouds::numbers(x@), clouds::numbers(y@), order),
        (None, None) => true,
        _ => false,
    } by {
        match (v[i], w[i]) {
            (Some(x), Some(y)) => {
                spelled_line_moves(x, y, order, spell);
            },
            _ => {},
        }
    }
    text_points_have_no_order(
        m.props,
        n.props,
        order,
        k,
        l,
        f.columns,
        g.columns,
        f.count as int,
    );
}

/// Two text files that differ in the order of their properties, or in the case of
/// their names, make the same cloud, however numbers are spelled and scaled.
pub proof fn text_clouds_have_no_order(
    a: Seq<u8>,
    b: Seq<u8>,
    order: Seq<int>,
    f: PointFile,
    g: PointFile,
    spell: spec_fn(Seq<char>) -> Option<u32>,
    k: Seq<Option<Vec<Option<u32>>>>,
    l: Seq<Option<Vec<Option<u32>>>>,
    single: spec_fn(ply::PropValue) -> u32,
    channel: spec_fn(bool, ply::PropValue) -> u32,
    p: Seq<SinglePoint>,
    q: Seq<SinglePoint>,
    c: PointCloud,
    d: PointCloud,
)
    requires
        same_text(a, b, order),
        clouds::point_file(a, f),
        clouds::point_file(b, g),
        f.body is Lines,
        g.body is Lines,
        spelled_by(clouds::word_views(f.body->Lines_0@), spell, k),
        spelled_by(clouds::word_views(g.body->Lines_0@), spell, l),
        clouds::points_of_lines(k, f.columns, f.width as int, f.count as int) matches Some(raw)
            && in_singles(raw, f.columns.integer, single, channel, p),
        clouds::points_of_lines(l, g.columns, g.width as int, g.count as int) matches Some(raw)
            && in_singles(raw, g.columns.integer, single, channel, q),
        clouds::is_cloud(p, c),
        clouds::is_cloud(q, d),
    ensures
        same_cloud(c, d),
{
    text_files_have_no_order(a, b, order, f, g, spell, k, l);
    let raw = clouds::points_of_lines(k, f.columns, f.width as int, f.count as int)->0;
    same_points_make_same_cloud(raw, f.columns.integer, single, channel, p, q, c, d);
}

/// Is there a property with either name?
pub open spec fn declares_either(
    props: Seq<ply::PropModel>,
    first: Seq<char>,
    second: Seq<char>,
) -> bool {
    declares(props, first) || declares(props, second)
}

/// Are all three properties of a normal declared?
pub open spec fn declares_normal(props: Seq<ply::PropModel>) -> bool {
    &&& declares_either(props, "nx"@, "normal_x"@)
    &&& declares_either(props, "ny"@, "normal_y"@)
    &&& declares_either(props, "nz"@, "normal_z"@)
}

proof fn normals_take_all_three(props: Seq<ply::PropModel>)
    ensures
        clouds::point_columns(props) matches Ok(c) ==> (c.normal is Some <==> declares_normal(
            props,
        )),
{
    either_is_found(props, "nx"@, "normal_x"@);
    either_is_found(props, "ny"@, "normal_y"@);
    either_is_found(props, "nz"@, "normal_z"@);
}

proof fn text_normals_follow_columns(
    lines: Seq<Option<Vec<Option<u32>>>>,
    c: PointColumns,
    width: int,
    count: int,
)
    ensures
        clouds::points_of_lines(lines, c, width, count) matches Some(raw) ==> forall|i: int|
            0 <= i < raw.len() ==> ((#[trigger] raw[i]).normal is Some <==> c.normal is Some),
    decreases lines.len(),
{
    if lines.len() > 0 {
        text_normals_follow_columns(lines.drop_last(), c, width, count);
    }
}

/// The cloud of a file has a colour for each point, and normals, one for each
/// point, exactly where all three of their properties are declared.
pub proof fn cloud_has_what_is_declared(
    b: Seq<u8>,
    f: PointFile,
    lines: Seq<Option<Vec<Option<u32>>>>,
    raw: Seq<RawPoint>,
    single: spec_fn(ply::PropValue) -> u32,
    channel: spec_fn(bool, ply::PropValue) -> u32,
    p: Seq<SinglePoint>,
    c: PointCloud,
)
    requires
        clouds::point_file(b, f),
        raw.len() > 0,
        match f.body {
            clouds::PointBody::Points(points) => raw == points@,
            clouds::PointBody::Lines(_) => clouds::points_of_lines(
                lines,
                f.columns,
                f.width as int,
                f.count as int,
            ) == Some(raw),
        },
        in_singles(raw, f.columns.integer, single, channel, p),
        clouds::is_cloud(p, c),
    ensures
        c.positions@.len() == raw.len(),
        c.colors@.len() == c.positions@.len(),
        ply::header_of(b, true) matches Ok((m, _)) && (c.normals is Some <==> declares_normal(
            m.props,
        )),
        c.normals matches Some(n) ==> n@.len() == c.positions@.len(),
{
    let (m, body) = ply::header_of(b, true)->Ok_0;
    normals_take_all_three(m.props);
    text_normals_follow_columns(lines, f.columns, f.width as int, f.count as int);
    assert forall|i: int| 0 <= i < p.len() implies ((#[trigger] p[i]).normal is Some
        <==> f.columns.normal is Some) by {
        assert(p[i].normal is Some <==> raw[i].normal is Some);
    }
    assert(p[0].normal is Some <==> f.columns.normal is Some);
}

proof fn either_is_found(props: Seq<ply::PropModel>, first: Seq<char>, second: Seq<char>)
    ensures
        clouds::index_of_any(props, seq![first, second]) >= 0 <==> declares_either(
            props,
            first,
            second,
        ),
{
    let names = seq![first, second];
    index_named_finds(props, first);
    index_named_finds(props, second);
    reveal_with_fuel(clouds::index_of_any, 3);
    assert(names.skip(1)[0] == second);
    assert(names.skip(1).skip(1).len() == 0);
}

} // verus!
