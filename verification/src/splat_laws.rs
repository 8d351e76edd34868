//! What a splat file holds, told from the properties that its header names.

use crate::ieee;
use crate::ply::{self, HeaderModel, PlyError, PropValue};
use crate::ply_laws;
use crate::splat_ply::{self as splats, RawSplat};
use vstd::prelude::*;

verus! {

/// Is this the value that the first property with the name has in row `r`?
pub open spec fn stored(
    b: Seq<u8>,
    m: HeaderModel,
    body: int,
    r: int,
    name: Seq<char>,
    v: PropValue,
) -> bool {
    exists|i: int| #[trigger]
        ply_laws::first_named(m.props, name, i) && v == ply::value_at(
            m.props[i].2,
            b,
            body + r * m.stride,
            m.props[i].1,
        )
}

/// Is there a property with the name?
pub open spec fn has_property(m: HeaderModel, name: Seq<char>) -> bool {
    exists|i: int| 0 <= i < m.props.len() && (#[trigger] m.props[i]).0 == name
}

/// Is the splat the one of row `r`, each part from the property that names it?
pub open spec fn is_row(
    b: Seq<u8>,
    m: HeaderModel,
    body: int,
    r: int,
    s: RawSplat,
) -> bool {
    &&& stored(b, m, body, r, "x"@, s.position.0)
    &&& stored(b, m, body, r, "y"@, s.position.1)
    &&& stored(b, m, body, r, "z"@, s.position.2)
    &&& stored(b, m, body, r, "opacity"@, s.opacity)
    &&& stored(b, m, body, r, "scale_0"@, s.scale.0)
    &&& stored(b, m, body, r, "scale_1"@, s.scale.1)
    &&& stored(b, m, body, r, "scale_2"@, s.scale.2)
    &&& stored(b, m, body, r, "rot_0"@, s.rotation.0)
    &&& stored(b, m, body, r, "rot_1"@, s.rotation.1)
    &&& stored(b, m, body, r, "rot_2"@, s.rotation.2)
    &&& stored(b, m, body, r, "rot_3"@, s.rotation.3)
    &&& s.color is Some <==> has_property(m, "f_dc_0"@) && has_property(m, "f_dc_1"@)
        && has_property(m, "f_dc_2"@)
    &&& s.color matches Some(c) ==> stored(b, m, body, r, "f_dc_0"@, c.0) && stored(
        b,
        m,
        body,
        r,
        "f_dc_1"@,
        c.1,
    ) && stored(b, m, body, r, "f_dc_2"@, c.2)
}

proof fn found_is_stored(b: Seq<u8>, m: HeaderModel, body: int, r: int, name: Seq<char>)
    ensures
        ply::find_prop(m.props, name) matches Some(c) ==> stored(
            b,
            m,
            body,
            r,
            name,
            splats::cell(b, body + r * m.stride, c),
        ),
        ply::find_prop(m.props, name) is Some <==> has_property(m, name),
{
    ply_laws::properties_are_found_by_name(m.props, name);
    if let Some((offset, ty)) = ply::find_prop(m.props, name) {
        let i = choose|i: int| #[trigger]
            ply_laws::first_named(m.props, name, i) && offset == m.props[i].1 && ty
                == m.props[i].2;
        assert(m.props[i].0 == name);
    }
}

proof fn column_of(props: Seq<ply::PropModel>, names: Seq<Seq<char>>, k: int)
    requires
        splats::columns(props, names) is Ok,
        0 <= k < names.len(),
    ensures
        splats::columns(props, names)->Ok_0.len() == names.len(),
        ply::find_prop(props, names[k]) == Some(splats::columns(props, names)->Ok_0[k]),
    decreases names.len(),
{
    reveal_with_fuel(splats::columns, 2);
    if names.len() > 1 {
        column_of(props, names.drop_last(), if k < names.len() - 1 {
            k
        } else {
            0
        });
    }
    if k < names.len() - 1 {
        assert(names.drop_last()[k] == names[k]);
    }
}

proof fn row_is_named(b: Seq<u8>, m: HeaderModel, body: int, r: int)
    requires
        splats::columns(m.props, splats::needed_names()) is Ok,
    ensures
        is_row(
            b,
            m,
            body,
            r,
            splats::splat_at(
                b,
                body + r * m.stride,
                splats::columns(m.props, splats::needed_names())->Ok_0,
                splats::color_columns(m.props),
            ),
        ),
{
    let names = splats::needed_names();
    column_of(m.props, names, 0);
    column_of(m.props, names, 1);
    column_of(m.props, names, 2);
    column_of(m.props, names, 3);
    column_of(m.props, names, 4);
    column_of(m.props, names, 5);
    column_of(m.props, names, 6);
    column_of(m.props, names, 7);
    column_of(m.props, names, 8);
    column_of(m.props, names, 9);
    column_of(m.props, names, 10);
    found_is_stored(b, m, body, r, "x"@);
    found_is_stored(b, m, body, r, "y"@);
    found_is_stored(b, m, body, r, "z"@);
    found_is_stored(b, m, body, r, "opacity"@);
    found_is_stored(b, m, body, r, "scale_0"@);
    found_is_stored(b, m, body, r, "scale_1"@);
    found_is_stored(b, m, body, r, "scale_2"@);
    found_is_stored(b, m, body, r, "rot_0"@);
    found_is_stored(b, m, body, r, "rot_1"@);
    found_is_stored(b, m, body, r, "rot_2"@);
    found_is_stored(b, m, body, r, "rot_3"@);
    found_is_stored(b, m, body, r, "f_dc_0"@);
    found_is_stored(b, m, body, r, "f_dc_1"@);
    found_is_stored(b, m, body, r, "f_dc_2"@);
}

/// Is the value, as a single, neither infinite nor a NaN? A double is too large for a
/// single from halfway beyond the largest one on.
pub open spec fn finite(v: PropValue) -> bool {
    match v {
        PropValue::Single(bits) => bits % 0x8000_0000 < 0x7f80_0000,
        PropValue::Double(bits) => bits % 0x8000_0000_0000_0000 < 0x47ef_ffff_f000_0000,
        PropValue::Int(_) => true,
    }
}

proof fn finite_is_finite(v: PropValue)
    ensures
        splats::finite_single(v) == finite(v),
{
}

/// Do the rows rise, and are they those whose coordinates are all finite?
pub open spec fn are_placed_rows(
    b: Seq<u8>,
    m: HeaderModel,
    body: int,
    n: int,
    rows: Seq<int>,
) -> bool {
    &&& forall|j: int, k: int| 0 <= j < k < rows.len() ==> #[trigger] rows[j] < #[trigger] rows[k]
    &&& forall|k: int| 0 <= k < rows.len() ==> 0 <= #[trigger] rows[k] < n
    &&& forall|r: int, x: PropValue, y: PropValue, z: PropValue|
        0 <= r < n && #[trigger] stored(b, m, body, r, "x"@, x) && #[trigger] stored(
            b,
            m,
            body,
            r,
            "y"@,
            y,
        ) && #[trigger] stored(b, m, body, r, "z"@, z) ==> (rows.contains(r) <==> finite(x)
            && finite(y) && finite(z))
}

proof fn stored_is_unique(
    b: Seq<u8>,
    m: HeaderModel,
    body: int,
    r: int,
    name: Seq<char>,
    v: PropValue,
    w: PropValue,
)
    requires
        stored(b, m, body, r, name, v),
        stored(b, m, body, r, name, w),
    ensures
        v == w,
{
    let i = choose|i: int| #[trigger]
        ply_laws::first_named(m.props, name, i) && v == ply::value_at(
            m.props[i].2,
            b,
            body + r * m.stride,
            m.props[i].1,
        );
    let j = choose|i: int| #[trigger]
        ply_laws::first_named(m.props, name, i) && w == ply::value_at(
            m.props[i].2,
            b,
            body + r * m.stride,
            m.props[i].1,
        );
    if i < j {
        assert(m.props[i].0 != name);
    } else if j < i {
        assert(m.props[j].0 != name);
    }
}

proof fn placed_rows_of(b: Seq<u8>, m: HeaderModel, body: int, n: int) -> (rows: Seq<int>)
    requires
        splats::columns(m.props, splats::needed_names()) is Ok,
    ensures
        are_placed_rows(b, m, body, n, rows),
        ({
            let s = splats::placed_splats(
                b,
                body,
                m.stride,
                n,
                splats::columns(m.props, splats::needed_names())->Ok_0,
                splats::color_columns(m.props),
            );
            &&& s.len() == rows.len()
            &&& forall|k: int|
                0 <= k < rows.len() ==> is_row(b, m, body, #[trigger] rows[k], s[k])
        }),
    decreases n,
{
    let c = splats::columns(m.props, splats::needed_names())->Ok_0;
    let color = splats::color_columns(m.props);
    if n <= 0 {
        Seq::empty()
    } else {
        let before = placed_rows_of(b, m, body, n - 1);
        let s = splats::splat_at(b, body + (n - 1) * m.stride, c, color);
        row_is_named(b, m, body, n - 1);
        finite_is_finite(s.position.0);
        finite_is_finite(s.position.1);
        finite_is_finite(s.position.2);
        let rows = if splats::placed(s) {
            before.push(n - 1)
        } else {
            before
        };
        assert forall|r: int, x: PropValue, y: PropValue, z: PropValue|
            0 <= r < n && #[trigger] stored(b, m, body, r, "x"@, x) && #[trigger] stored(
                b,
                m,
                body,
                r,
                "y"@,
                y,
            ) && #[trigger] stored(b, m, body, r, "z"@, z) implies (rows.contains(r) <==> finite(x)
            && finite(y) && finite(z)) by {
            if r == n - 1 {
                stored_is_unique(b, m, body, r, "x"@, x, s.position.0);
                stored_is_unique(b, m, body, r, "y"@, y, s.position.1);
                stored_is_unique(b, m, body, r, "z"@, z, s.position.2);
                if splats::placed(s) {
                    assert(rows[before.len() as int] == r);
                }
            } else {
                if before.contains(r) {
                    let k = choose|k: int| 0 <= k < before.len() && before[k] == r;
                    assert(rows[k] == r);
                }
                if rows.contains(r) {
                    let k = choose|k: int| 0 <= k < rows.len() && rows[k] == r;
                    assert(before[k] == r);
                }
            }
        }
        assert forall|k: int| 0 <= k < rows.len() implies 0 <= #[trigger] rows[k] < n by {
            if k < before.len() {
                assert(rows[k] == before[k]);
            }
        }
        let now = splats::placed_splats(b, body, m.stride, n, c, color);
        let earlier = splats::placed_splats(b, body, m.stride, n - 1, c, color);
        assert forall|k: int| 0 <= k < rows.len() implies is_row(
            b,
            m,
            body,
            #[trigger] rows[k],
            now[k],
        ) by {
            if k < before.len() {
                assert(rows[k] == before[k] && now[k] == earlier[k]);
            }
        }
        rows
    }
}

/// A splat file gives one splat for each row whose three coordinates are finite, in
/// the order of the rows, each part with the value of the property that bears its
/// name, whatever else the file has.
pub proof fn splats_are_the_placed_rows(b: Seq<u8>)
    requires
        splats::splat_file(b) is Ok,
    ensures
        ply::header_of(b, false) matches Ok((m, body)) && exists|rows: Seq<int>| #[trigger]
            are_placed_rows(b, m, body, m.count->0 as int, rows) && rows.len()
                == (splats::splat_file(b)->Ok_0).0.len() && forall|k: int|
                0 <= k < rows.len() ==> is_row(
                    b,
                    m,
                    body,
                    #[trigger] rows[k],
                    (splats::splat_file(b)->Ok_0).0[k],
                ),
{
    let (m, body) = ply::header_of(b, false)->Ok_0;
    let rows = placed_rows_of(b, m, body, m.count->0 as int);
    assert(are_placed_rows(b, m, body, m.count->0 as int, rows));
}

/// Does the opacity, as a single, lie below -0.01 or above 1.01?
pub open spec fn not_an_opacity(v: PropValue) -> bool {
    match v {
        PropValue::Single(bits) => ieee::less(bits, 0xbc23_d70a) || ieee::less(0x3f81_47ae, bits),
        PropValue::Double(bits) => 0x3ff0_28f5_d000_0000 < bits <= 0x7ff0_0000_0000_0000
            || 0xbf84_7ae1_5000_0000 < bits <= 0xfff0_0000_0000_0000,
        PropValue::Int(i) => i < 0 || i > 1,
    }
}

/// A file is taken to hold linear opacities and scales exactly where none of its
/// first ten thousand opacities lies outside -0.01 to 1.01.
pub proof fn linear_units_are_told_by_opacities(b: Seq<u8>)
    requires
        splats::splat_file(b) is Ok,
    ensures
        ply::header_of(b, false) matches Ok((m, body)) && ((splats::splat_file(b)->Ok_0).1
            <==> forall|r: int, v: PropValue|
            0 <= r < m.count->0 && r < 10_000 && #[trigger] stored(b, m, body, r, "opacity"@, v)
                ==> !not_an_opacity(v)),
{
    let (m, body) = ply::header_of(b, false)->Ok_0;
    let count = m.count->0 as int;
    let names = splats::needed_names();
    let c = splats::columns(m.props, names)->Ok_0;
    column_of(m.props, names, 3);
    let linear = splats::linear_units(b, body, m.stride, count, c[3]);
    if linear {
        assert forall|r: int, v: PropValue|
            0 <= r < m.count->0 && r < 10_000 && #[trigger] stored(
                b,
                m,
                body,
                r,
                "opacity"@,
                v,
            ) implies !not_an_opacity(v) by {
            found_is_stored(b, m, body, r, "opacity"@);
            let w = splats::cell(b, body + r * m.stride, c[3]);
            stored_is_unique(b, m, body, r, "opacity"@, v, w);
            assert(!splats::beyond_unit(w));
        }
    } else {
        let r = choose|r: int|
            0 <= r < count && r < splats::OPACITY_ROWS && splats::beyond_unit(
                #[trigger] splats::cell(b, body + r * m.stride, c[3]),
            );
        found_is_stored(b, m, body, r, "opacity"@);
        let w = splats::cell(b, body + r * m.stride, c[3]);
        assert(stored(b, m, body, r, "opacity"@, w));
        assert(not_an_opacity(w));
    }
}

/// A file is refused as no splat file exactly where one of the properties of a splat
/// is missing, and the first missing one is named.
pub proof fn missing_properties_are_named(b: Seq<u8>)
    requires
        ply::header_of(b, false) is Ok,
    ensures
        ply::header_of(b, false) matches Ok((m, _)) && match splats::splat_file(b) {
            Err(PlyError::MissingProperty(name, _)) => !has_property(m, name),
            _ => has_property(m, "x"@) && has_property(m, "y"@) && has_property(m, "z"@)
                && has_property(m, "opacity"@) && has_property(m, "scale_0"@) && has_property(
                m,
                "scale_1"@,
            ) && has_property(m, "scale_2"@) && has_property(m, "rot_0"@) && has_property(
                m,
                "rot_1"@,
            ) && has_property(m, "rot_2"@) && has_property(m, "rot_3"@),
        },
{
    let (m, body) = ply::header_of(b, false)->Ok_0;
    let names = splats::needed_names();
    match splats::columns(m.props, names) {
        Err(name) => {
            missing_is_absent(m, names);
        },
        Ok(_) => {
            row_is_named(b, m, body, 0);
            names_are_there(m, names);
            assert(names[0] == "x"@ && names[1] == "y"@ && names[2] == "z"@ && names[3]
                == "opacity"@);
            assert(names[4] == "scale_0"@ && names[5] == "scale_1"@ && names[6] == "scale_2"@);
            assert(names[7] == "rot_0"@ && names[8] == "rot_1"@ && names[9] == "rot_2"@ && names[10]
                == "rot_3"@);
        },
    }
}

proof fn names_are_there(m: HeaderModel, names: Seq<Seq<char>>)
    requires
        splats::columns(m.props, names) is Ok,
    ensures
        forall|k: int| 0 <= k < names.len() ==> has_property(m, #[trigger] names[k]),
{
    assert forall|k: int| 0 <= k < names.len() implies has_property(m, #[trigger] names[k]) by {
        column_of(m.props, names, k);
        found_is_stored(Seq::empty(), m, 0, 0, names[k]);
    }
}

proof fn missing_is_absent(m: HeaderModel, names: Seq<Seq<char>>)
    requires
        splats::columns(m.props, names) is Err,
    ensures
        !has_property(m, splats::columns(m.props, names)->Err_0),
    decreases names.len(),
{
    if splats::columns(m.props, names.drop_last()) is Err {
        missing_is_absent(m, names.drop_last());
    } else {
        found_is_stored(Seq::empty(), m, 0, 0, names.last());
    }
}

/// A splat file is refused if its header is, if a property is missing, if its bytes
/// end before its rows do, or if no row is placed; and for no other reason.
pub proof fn splats_are_refused_for_these_reasons(b: Seq<u8>)
    ensures
        ply::header_of(b, false) matches Err(e) ==> splats::splat_file(b) == Err::<
            (Seq<RawSplat>, bool),
            PlyError<Seq<char>>,
        >(e),
        ply::header_of(b, false) matches Ok((m, body)) ==> {
            let r = splats::splat_file(b);
            let missing = splats::columns(m.props, splats::needed_names()) is Err;
            let short = b.len() < body + m.count->0 * m.stride;
            &&& missing ==> r is Err && r->Err_0 is MissingProperty
            &&& !missing && short ==> r is Err && r->Err_0 is Truncated
            &&& !missing && !short && r is Err ==> r->Err_0 is Empty
            &&& r is Ok ==> r->Ok_0.0.len() > 0
        },
{
}

} // verus!
