//! What a PLY file says, told from its bytes and words: how numbers are stored, where
//! properties stand, and what the lines of a header mean.

use crate::ply::{
    self, HeaderLine, HeaderModel, PlyError, PropType, PropValue, VertexLayout,
};
use crate::text;
use vstd::prelude::*;

verus! {

proof fn little_endian_of(b: Seq<u8>)
    ensures
        b.len() == 1 ==> ply::little_endian(b) == b[0],
        b.len() == 2 ==> ply::little_endian(b) == b[0] + 256 * b[1],
        b.len() == 4 ==> ply::little_endian(b) == b[0] + 256 * b[1] + 65536 * b[2] + 16777216
            * b[3],
        b.len() == 8 ==> ply::little_endian(b) == b[0] + 256 * b[1] + 65536 * b[2] + 16777216 * b[3]
            + 4294967296 * (b[4] + 256 * b[5] + 65536 * b[6] + 16777216 * b[7]),
{
    reveal_with_fuel(ply::little_endian, 9);
    let b1 = b.skip(1);
    let b2 = b1.skip(1);
    let b3 = b2.skip(1);
    let b4 = b3.skip(1);
    let b5 = b4.skip(1);
    let b6 = b5.skip(1);
    let b7 = b6.skip(1);
    if b.len() >= 2 {
        assert(b1[0] == b[1]);
    }
    if b.len() >= 4 {
        assert(b2[0] == b[2] && b3[0] == b[3]);
    }
    if b.len() == 8 {
        assert(b4[0] == b[4] && b5[0] == b[5] && b6[0] == b[6] && b7[0] == b[7]);
    }
}

/// The number that so many bytes hold, lowest byte first, and the number with a sign
/// that stands for it.
pub open spec fn signed_of(n: int, half: int) -> int {
    if n >= half {
        n - half - half
    } else {
        n
    }
}

/// Numbers are stored with their lowest byte first, in as many bytes as their type
/// has, negative ones as what they lack to the next power of 256.
pub proof fn numbers_are_stored_low_byte_first(b: Seq<u8>, row: int, offset: int)
    requires
        0 <= row + offset,
        row + offset + 8 <= b.len(),
    ensures
        ({
            let c = b.skip(row + offset);
            let two = c[0] + 256 * c[1];
            let four = two + 65536 * (c[2] + 256 * c[3]);
            let eight = four + 4294967296 * (c[4] + 256 * c[5] + 65536 * (c[6] + 256 * c[7]));
            &&& ply::value_at(PropType::U8, b, row, offset) == PropValue::Int(c[0] as i64)
            &&& ply::value_at(PropType::I8, b, row, offset) == PropValue::Int(
                signed_of(c[0] as int, 128) as i64,
            )
            &&& ply::value_at(PropType::U16, b, row, offset) == PropValue::Int(two as i64)
            &&& ply::value_at(PropType::I16, b, row, offset) == PropValue::Int(
                signed_of(two, 32768) as i64,
            )
            &&& ply::value_at(PropType::U32, b, row, offset) == PropValue::Int(four as i64)
            &&& ply::value_at(PropType::I32, b, row, offset) == PropValue::Int(
                signed_of(four, 2147483648) as i64,
            )
            &&& ply::value_at(PropType::F32, b, row, offset) == PropValue::Single(four as u32)
            &&& ply::value_at(PropType::F64, b, row, offset) == PropValue::Double(eight as u64)
        }),
{
    let c = b.skip(row + offset);
    let at = row + offset;
    let (b1, b2, b4, b8) = (
        b.subrange(at, at + 1),
        b.subrange(at, at + 2),
        b.subrange(at, at + 4),
        b.subrange(at, at + 8),
    );
    assert(b1[0] == c[0]);
    assert(b2[0] == c[0] && b2[1] == c[1]);
    assert(b4[0] == c[0] && b4[1] == c[1] && b4[2] == c[2] && b4[3] == c[3]);
    assert(b8[0] == c[0] && b8[1] == c[1] && b8[2] == c[2] && b8[3] == c[3]);
    assert(b8[4] == c[4] && b8[5] == c[5] && b8[6] == c[6] && b8[7] == c[7]);
    little_endian_of(b1);
    little_endian_of(b2);
    little_endian_of(b4);
    little_endian_of(b8);
}

/// Is this the first property with the name?
pub open spec fn first_named(props: Seq<ply::PropModel>, name: Seq<char>, i: int) -> bool {
    &&& 0 <= i < props.len()
    &&& props[i].0 == name
    &&& forall|j: int| 0 <= j < i ==> (#[trigger] props[j]).0 != name
}

/// A property is found by its name, the first of those that share it.
pub proof fn properties_are_found_by_name(props: Seq<ply::PropModel>, name: Seq<char>)
    ensures
        match ply::find_prop(props, name) {
            Some((offset, ty)) => exists|i: int| #[trigger]
                first_named(props, name, i) && offset == props[i].1 && ty == props[i].2,
            None => forall|i: int| 0 <= i < props.len() ==> (#[trigger] props[i]).0 != name,
        },
    decreases props.len(),
{
    if props.len() > 0 {
        let rest = props.skip(1);
        properties_are_found_by_name(rest, name);
        if props[0].0 == name {
            assert(first_named(props, name, 0));
        } else {
            match ply::find_prop(rest, name) {
                Some((offset, ty)) => {
                    let i = choose|i: int| #[trigger]
                        first_named(rest, name, i) && offset == rest[i].1 && ty == rest[i].2;
                    assert forall|j: int| 0 <= j < i + 1 implies (#[trigger] props[j]).0 != name by {
                        if j > 0 {
                            assert(props[j] == rest[j - 1]);
                        }
                    }
                    assert(props[i + 1] == rest[i]);
                    assert(first_named(props, name, i + 1));
                },
                None => {
                    assert forall|i: int| 0 <= i < props.len() implies (#[trigger] props[i]).0
                        != name by {
                        if i > 0 {
                            assert(props[i] == rest[i - 1]);
                        }
                    }
                },
            }
        }
    }
}

/// Do the properties stand one behind the other, and does the row end behind the
/// last?
spec fn stand_in_turn(m: HeaderModel) -> bool {
    &&& m.stride >= 0
    &&& m.props.len() == 0 ==> m.stride == 0
    &&& forall|i: int|
        #![trigger m.props[i]]
        0 <= i < m.props.len() ==> m.props[i].1 >= 0 && m.props[i].1 + ply::type_size(m.props[i].2)
            == if i + 1 < m.props.len() {
            m.props[i + 1].1
        } else {
            m.stride
        }
    &&& m.props.len() > 0 ==> m.props[0].1 == 0
}

proof fn header_keeps_turn(b: Seq<u8>, pos: int, m: HeaderModel, points: bool)
    requires
        stand_in_turn(m),
    ensures
        ply::header_from(b, pos, m, points) matches Ok((r, _)) ==> stand_in_turn(r),
    decreases b.len() - pos,
{
    if pos < b.len() {
        let end = ply::line_end(b, pos);
        ply::line_end_advances(b, pos);
        if let Some(w) = ply::line_words(b, pos, end) {
            if let Ok(next) = ply::header_step(m, ply::header_line(w), points) {
                assert(stand_in_turn(next)) by {
                    assert forall|i: int|
                        #![trigger next.props[i]]
                        0 <= i < next.props.len() implies next.props[i].1 >= 0 && next.props[i].1
                        + ply::type_size(next.props[i].2) == if i + 1 < next.props.len() {
                        next.props[i + 1].1
                    } else {
                        next.stride
                    } by {
                        if i < m.props.len() {
                            assert(m.props[i] == next.props[i]);
                        }
                    }
                }
                header_keeps_turn(b, end, next, points);
            }
        }
    }
}

/// The first property stands at the start of a row, each further one behind the one
/// before, and the row ends behind the last.
pub proof fn properties_stand_in_turn(b: Seq<u8>, points: bool, i: int)
    requires
        ply::header_of(b, points) matches Ok((m, _)) && 0 <= i < m.props.len(),
    ensures
        ply::header_of(b, points) matches Ok((m, _)) && {
            &&& m.props[0].1 == 0
            &&& i + 1 < m.props.len() ==> m.props[i + 1].1 == m.props[i].1 + ply::type_size(
                m.props[i].2,
            )
            &&& i + 1 == m.props.len() ==> m.stride == m.props[i].1 + ply::type_size(m.props[i].2)
        },
{
    header_keeps_turn(b, ply::line_end(b, 0), ply::header_start(), points);
}

/// A header line is told by its first word and the number of its words; comments and
/// all else are passed over.
pub proof fn header_lines_are_told_by_words(w: Seq<Seq<char>>)
    ensures
        w == seq!["end_header"@] <==> ply::header_line(w) is End,
        w.len() == 3 && w[0] == "format"@ <==> ply::header_line(w) is Format,
        ply::header_line(w) matches HeaderLine::Format(f) ==> f == w[1],
        w.len() == 3 && w[0] == "element"@ && w[1] == "vertex"@ <==> ply::header_line(w) is Vertex,
        ply::header_line(w) matches HeaderLine::Vertex(n) ==> n == w[2],
        w.len() == 3 && w[0] == "property"@ && w[1] != "list"@ <==> ply::header_line(w) is Property,
        ply::header_line(w) matches HeaderLine::Property(t, name) ==> t == w[1] && name == w[2],
        w.len() > 0 && w[0] == "comment"@ ==> ply::header_line(w) is Other,
{
    reveal_strlit("format");
    reveal_strlit("element");
    reveal_strlit("property");
    reveal_strlit("end_header");
    reveal_strlit("comment");
    assert("format"@.len() == 6 && "element"@.len() == 7 && "property"@.len() == 8);
    assert("end_header"@.len() == 10 && "comment"@.len() == 7);
    assert("element"@[0] == 'e' && "comment"@[0] == 'c');
    if w.len() == 1 && w[0] == "end_header"@ {
        assert(w =~= seq!["end_header"@]);
    }
    if w == seq!["end_header"@] {
        assert(w.len() == 1 && w[0] == "end_header"@);
    }
}

/// A property line of the vertex element adds one property behind those before it;
/// one of another element adds none.
pub proof fn property_lines_add_properties(
    m: HeaderModel,
    ty: Seq<char>,
    name: Seq<char>,
    points: bool,
)
    ensures
        match ply::header_step(m, HeaderLine::Property(ty, name), points) {
            Ok(next) => {
                &&& next.count == m.count && next.in_vertex == m.in_vertex && next.ascii == m.ascii
                &&& m.in_vertex ==> next.props.len() == m.props.len() + 1
                    && next.props.drop_last() == m.props && next.props.last().0 == name
                    && ply::type_named(ty) == Some(next.props.last().2)
                &&& !m.in_vertex ==> next == m
            },
            Err(e) => m.in_vertex && ply::type_named(ty) is None && e == PlyError::UnknownType(ty),
        },
{
    if m.in_vertex && ply::type_named(ty) is Some {
        let next = ply::header_step(m, HeaderLine::Property(ty, name), points)->Ok_0;
        assert(next.props.drop_last() =~= m.props);
    }
}

/// The number of rows is the one behind `element vertex`, as it is written there.
pub proof fn vertex_lines_give_the_count(m: HeaderModel, n: Seq<char>, points: bool)
    ensures
        match ply::header_step(m, HeaderLine::Vertex(n), points) {
            Ok(next) => {
                &&& next.in_vertex
                &&& next.count is Some && text::parse_number(n, usize::MAX as int) == next.count
                &&& next.props == m.props && next.stride == m.stride && next.ascii == m.ascii
                    && next.format_ok == m.format_ok
            },
            Err(e) => e is BadVertexCount && text::parse_number(n, usize::MAX as int) is None,
        },
        ply::header_step(m, HeaderLine::Element, points) matches Ok(next) && !next.in_vertex
            && next.props == m.props && next.count == m.count && next.ascii == m.ascii,
{
}

/// Splat files are binary; point clouds may be text too; nothing else is read.
pub proof fn formats_are_told_apart(m: HeaderModel, f: Seq<char>, points: bool)
    ensures
        match ply::header_step(m, HeaderLine::Format(f), points) {
            Ok(next) => {
                &&& next.ascii ==> f == "ascii"@ && points
                &&& !next.ascii ==> f == "binary_little_endian"@
                &&& next.props == m.props && next.count == m.count && next.in_vertex == m.in_vertex
                &&& next.format_ok
            },
            Err(e) => e == PlyError::UnsupportedFormat(f) && f != "binary_little_endian"@ && !(
            points && f == "ascii"@),
        },
{
}

/// A line runs up to its line feed, which belongs to it, or to the end of the bytes.
pub proof fn lines_end_behind_their_feed(b: Seq<u8>, from: int)
    requires
        0 <= from < b.len(),
    ensures
        ({
            let end = ply::line_end(b, from);
            &&& from < end <= b.len()
            &&& forall|k: int| from <= k < end - 1 ==> #[trigger] b[k] != 10
            &&& end < b.len() ==> b[end - 1] == 10
        }),
    decreases b.len() - from,
{
    ply::line_end_advances(b, from);
    if b[from] != 10 {
        if from + 1 < b.len() {
            lines_end_behind_their_feed(b, from + 1);
        } else {
            reveal_with_fuel(ply::line_end, 2);
        }
    }
}

/// Types are told by these words, and no others.
pub proof fn types_are_told_by_word(t: Seq<char>)
    ensures
        ply::type_named(t) == Some(PropType::F32) <==> t == "float"@ || t == "float32"@,
        ply::type_named(t) == Some(PropType::F64) <==> t == "double"@ || t == "float64"@,
        ply::type_named(t) == Some(PropType::I8) <==> t == "char"@ || t == "int8"@,
        ply::type_named(t) == Some(PropType::U8) <==> t == "uchar"@ || t == "uint8"@,
        ply::type_named(t) == Some(PropType::I16) <==> t == "short"@ || t == "int16"@,
        ply::type_named(t) == Some(PropType::U16) <==> t == "ushort"@ || t == "uint16"@,
        ply::type_named(t) == Some(PropType::I32) <==> t == "int"@ || t == "int32"@,
        ply::type_named(t) == Some(PropType::U32) <==> t == "uint"@ || t == "uint32"@,
{
    reveal_strlit("float");
    reveal_strlit("float32");
    reveal_strlit("double");
    reveal_strlit("float64");
    reveal_strlit("char");
    reveal_strlit("int8");
    reveal_strlit("uchar");
    reveal_strlit("uint8");
    reveal_strlit("short");
    reveal_strlit("int16");
    reveal_strlit("ushort");
    reveal_strlit("uint16");
    reveal_strlit("int");
    reveal_strlit("int32");
    reveal_strlit("uint");
    reveal_strlit("uint32");
    assert("float"@[0] == 'f' && "float32"@[0] == 'f' && "float64"@[0] == 'f' && "double"@[0] == 'd'
        && "char"@[0] == 'c' && "int8"@[0] == 'i' && "uchar"@[0] == 'u' && "uint8"@[0] == 'u'
        && "short"@[0] == 's' && "int16"@[0] == 'i' && "ushort"@[0] == 'u' && "uint16"@[0] == 'u'
        && "int"@[0] == 'i' && "int32"@[0] == 'i' && "uint"@[0] == 'u' && "uint32"@[0] == 'u');
    assert("float"@.len() == 5 && "float32"@.len() == 7 && "float64"@.len() == 7);
    assert("float32"@[5] != "float64"@[5]);
    assert("int8"@.len() == 4 && "int16"@.len() == 5 && "int"@.len() == 3 && "int32"@.len() == 5);
    assert("int16"@[3] != "int32"@[3]);
    assert("uchar"@.len() == 5 && "uint8"@.len() == 5 && "ushort"@.len() == 6 && "uint16"@.len()
        == 6 && "uint"@.len() == 4 && "uint32"@.len() == 6);
    assert("uchar"@[1] != "uint8"@[1]);
    assert("ushort"@[1] != "uint16"@[1] && "ushort"@[1] != "uint32"@[1]);
    assert("uint16"@[4] != "uint32"@[4]);
}

/// A list on vertices is an error in a splat file; every other list, and every other
/// line, changes nothing.
pub proof fn lists_are_refused_in_splats(m: HeaderModel, points: bool)
    ensures
        ply::header_step(m, HeaderLine::List, points) is Err <==> m.in_vertex && !points,
        m.in_vertex && !points ==> ply::header_step(
            m,
            HeaderLine::List,
            points,
        )->Err_0 is ListOnVertices,
        !(m.in_vertex && !points) ==> ply::header_step(m, HeaderLine::List, points) == Ok::<
            HeaderModel,
            PlyError<Seq<char>>,
        >(m),
        ply::header_step(m, HeaderLine::Other, points) == Ok::<HeaderModel, PlyError<Seq<char>>>(m),
{
}

/// The rows begin behind the line that ends the header, whose one word says so.
pub proof fn rows_begin_behind_the_header(b: Seq<u8>, points: bool)
    ensures
        ply::header_of(b, points) matches Ok((m, body)) ==> exists|pos: int|
            0 < pos < body <= b.len() && body == #[trigger] ply::line_end(b, pos) && ply::line_words(
                b,
                pos,
                body,
            ) == Some(seq!["end_header"@]),
{
    if b.len() > 0 {
        ply::line_end_advances(b, 0);
        header_ends_with_its_word(b, ply::line_end(b, 0), ply::header_start(), points);
    } else {
        reveal_with_fuel(ply::line_end, 2);
    }
}

proof fn header_ends_with_its_word(b: Seq<u8>, from: int, m: HeaderModel, points: bool)
    requires
        0 < from,
    ensures
        ply::header_from(b, from, m, points) matches Ok((r, body)) ==> exists|pos: int|
            0 < pos < body <= b.len() && body == #[trigger] ply::line_end(b, pos) && ply::line_words(
                b,
                pos,
                body,
            ) == Some(seq!["end_header"@]),
    decreases b.len() - from,
{
    if from < b.len() {
        let end = ply::line_end(b, from);
        ply::line_end_advances(b, from);
        if let Some(w) = ply::line_words(b, from, end) {
            if ply::header_line(w) is End {
                header_lines_are_told_by_words(w);
                assert(from < end <= b.len());
            } else if let Ok(next) = ply::header_step(m, ply::header_line(w), points) {
                header_ends_with_its_word(b, end, next, points);
            }
        }
    }
}

/// A file that is read begins with the line "ply", has a vertex element and, if it is
/// to hold splats, a format.
pub proof fn headers_say_what_they_must(b: Seq<u8>, points: bool)
    ensures
        ply::header_of(b, points) matches Ok((m, _)) ==> {
            let first = b.subrange(0, ply::line_end(b, 0));
            &&& vstd::utf8::valid_utf8(first)
            &&& text::trimmed(vstd::utf8::decode_utf8(first)) == "ply"@
            &&& m.count is Some
            &&& !points ==> m.format_ok
        },
        ply::header_of(b, points) matches Err(e) ==> {
            let first = b.subrange(0, ply::line_end(b, 0));
            (e is NotPly) == (vstd::utf8::valid_utf8(first) && text::trimmed(
                vstd::utf8::decode_utf8(first),
            ) != "ply"@)
        },
{
    header_is_never_no_ply(b, ply::line_end(b, 0), ply::header_start(), points);
}

proof fn header_is_never_no_ply(b: Seq<u8>, from: int, m: HeaderModel, points: bool)
    ensures
        ply::header_from(b, from, m, points) matches Err(e) ==> !(e is NotPly),
    decreases b.len() - from,
{
    if from < b.len() {
        let end = ply::line_end(b, from);
        ply::line_end_advances(b, from);
        if let Some(w) = ply::line_words(b, from, end) {
            if let Ok(next) = ply::header_step(m, ply::header_line(w), points) {
                header_is_never_no_ply(b, end, next, points);
            }
        }
    }
}

/// A line is read as words if its bytes are UTF-8, and not at all otherwise.
pub proof fn lines_are_read_as_words(b: Seq<u8>, from: int, to: int)
    requires
        0 <= from <= to <= b.len(),
    ensures
        ply::line_words(b, from, to) is Some <==> vstd::utf8::valid_utf8(b.subrange(from, to)),
        ply::line_words(b, from, to) matches Some(w) ==> w == text::fields(
            vstd::utf8::decode_utf8(b.subrange(from, to)),
            false,
        ),
{
}

/// Errors, properties and layouts are seen as they are: an error as the one of its
/// kind with its own texts, a property with its own name, place and type, and a layout
/// with what the header declares.
pub proof fn files_are_seen_as_they_are(
    e: PlyError<String>,
    layout: VertexLayout,
    m: HeaderModel,
    body: int,
    k: int,
)
    requires
        layout.describes(m, body),
        0 <= k < layout.props@.len(),
    ensures
        match e {
            PlyError::NotText => ply::error_view(e) is NotText,
            PlyError::NotPly => ply::error_view(e) is NotPly,
            PlyError::HeaderEnded => ply::error_view(e) is HeaderEnded,
            PlyError::UnsupportedFormat(t) => ply::error_view(e) == PlyError::UnsupportedFormat(t@),
            PlyError::BadVertexCount => ply::error_view(e) is BadVertexCount,
            PlyError::ListOnVertices => ply::error_view(e) is ListOnVertices,
            PlyError::UnknownType(t) => ply::error_view(e) == PlyError::UnknownType(t@),
            PlyError::NoFormat => ply::error_view(e) is NoFormat,
            PlyError::NoVertexElement => ply::error_view(e) is NoVertexElement,
            PlyError::MissingProperty(t, u) => ply::error_view(e) == PlyError::MissingProperty(
                t@,
                u@,
            ),
            PlyError::Truncated => ply::error_view(e) is Truncated,
            PlyError::Empty => ply::error_view(e) is Empty,
        },
        layout.props@.len() == m.props.len(),
        m.props[k] == (
            layout.props@[k].name@,
            layout.props@[k].offset as int,
            layout.props@[k].ty,
        ),
        layout.stride == m.stride && layout.ascii == m.ascii && layout.body == body && m.count
            == Some(layout.count as nat),
        ply::prop_names(m.props).len() == m.props.len() && ply::prop_names(m.props)[k]
            == m.props[k].0,
{
    assert(ply::props_view(layout.props@)[k] == m.props[k]);
}

/// Header lines are seen as they are, with their own texts in their places.
pub proof fn lines_are_seen_as_they_are(line: HeaderLine<String>)
    ensures
        match line {
            HeaderLine::Format(f) => ply::line_view(line) == HeaderLine::Format(f@),
            HeaderLine::Vertex(n) => ply::line_view(line) == HeaderLine::Vertex(n@),
            HeaderLine::Element => ply::line_view(line) is Element,
            HeaderLine::List => ply::line_view(line) is List,
            HeaderLine::Property(t, name) => ply::line_view(line) == HeaderLine::Property(
                t@,
                name@,
            ),
            HeaderLine::End => ply::line_view(line) is End,
            HeaderLine::Other => ply::line_view(line) is Other,
        },
{
}

/// A header is read line by line: a line that ends it leaves what was said so far, any
/// other adds what it says and leaves the rest to the lines behind it, and a line that
/// is not UTF-8, that is wrong or that is missing is an error.
pub proof fn headers_are_read_line_by_line(b: Seq<u8>, pos: int, m: HeaderModel, points: bool)
    ensures
        ({
            let end = ply::line_end(b, pos);
            let rest = ply::header_from(b, pos, m, points);
            let words = ply::line_words(b, pos, end);
            &&& pos >= b.len() ==> rest is Err && rest->Err_0 is HeaderEnded
            &&& pos < b.len() && words is None ==> rest is Err && rest->Err_0 is NotText
            &&& pos < b.len() && words == Some(seq!["end_header"@]) ==> rest == Ok::<
                (HeaderModel, int),
                PlyError<Seq<char>>,
            >((m, end))
            &&& pos < b.len() && words is Some && words->0 != seq!["end_header"@] ==> match
            ply::header_step(m, ply::header_line(words->0), points) {
                Ok(next) => rest == ply::header_from(b, end, next, points),
                Err(e) => rest is Err && rest->Err_0 == e,
            }
        }),
{
    let end = ply::line_end(b, pos);
    if pos < b.len() {
        ply::line_end_advances(b, pos);
        if let Some(w) = ply::line_words(b, pos, end) {
            header_lines_are_told_by_words(w);
        }
    }
}

/// A header begins with nothing said, behind the first line.
pub proof fn headers_begin_behind_the_first_line(b: Seq<u8>, points: bool)
    ensures
        ({
            let m = ply::header_start();
            &&& m.props.len() == 0 && m.stride == 0 && m.count is None
            &&& !m.in_vertex && !m.format_ok && !m.ascii
        }),
        ply::header_of(b, points) is Ok ==> ply::header_of(b, points) == ply::header_from(
            b,
            ply::line_end(b, 0),
            ply::header_start(),
            points,
        ),
{
}

} // verus!
