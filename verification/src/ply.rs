//! What the two PLY readers share: property types and their values, the lines
//! of a header, and the errors.

use crate::text::{self, same_text, split_words, utf8_text};
use vstd::prelude::*;

verus! {

/// The type of a scalar property.
#[derive(Debug, Clone, Copy, PartialEq, Eq, Structural)]
pub enum PropType {
    F32,
    F64,
    I8,
    U8,
    I16,
    U16,
    I32,
    U32,
}

/// The value of a property as it is stored: the bits of a float, or an
/// integer.
#[derive(Debug, Clone, Copy, PartialEq, Eq, Structural)]
pub enum PropValue {
    Single(u32),
    Double(u64),
    Int(i64),
}

/// The type that a name in the header stands for.
pub open spec fn type_named(name: Seq<char>) -> Option<PropType> {
    if name == "float"@ || name == "float32"@ {
        Some(PropType::F32)
    } else if name == "double"@ || name == "float64"@ {
        Some(PropType::F64)
    } else if name == "char"@ || name == "int8"@ {
        Some(PropType::I8)
    } else if name == "uchar"@ || name == "uint8"@ {
        Some(PropType::U8)
    } else if name == "short"@ || name == "int16"@ {
        Some(PropType::I16)
    } else if name == "ushort"@ || name == "uint16"@ {
        Some(PropType::U16)
    } else if name == "int"@ || name == "int32"@ {
        Some(PropType::I32)
    } else if name == "uint"@ || name == "uint32"@ {
        Some(PropType::U32)
    } else {
        None
    }
}

/// The number of bytes of a value of the type.
pub open spec fn type_size(ty: PropType) -> int {
    match ty {
        PropType::I8 | PropType::U8 => 1,
        PropType::I16 | PropType::U16 => 2,
        PropType::F32 | PropType::I32 | PropType::U32 => 4,
        PropType::F64 => 8,
    }
}

/// The unsigned number that bytes hold, lowest byte first.
pub open spec fn little_endian(b: Seq<u8>) -> nat
    decreases b.len(),
{
    if b.len() == 0 {
        0
    } else {
        b[0] as nat + 256 * little_endian(b.skip(1))
    }
}

/// A number of `2 * half` values, those from `half` on standing for negatives.
pub open spec fn two_complement(n: nat, half: int) -> int {
    if n < half {
        n as int
    } else {
        n - 2 * half
    }
}

/// The value that a property of type `ty` has in bytes of its size.
pub open spec fn value_in(ty: PropType, b: Seq<u8>) -> PropValue {
    let n = little_endian(b);
    match ty {
        PropType::F32 => PropValue::Single(n as u32),
        PropType::F64 => PropValue::Double(n as u64),
        PropType::I8 => PropValue::Int(two_complement(n, 0x80) as i64),
        PropType::I16 => PropValue::Int(two_complement(n, 0x8000) as i64),
        PropType::I32 => PropValue::Int(two_complement(n, 0x8000_0000) as i64),
        PropType::U8 | PropType::U16 | PropType::U32 => PropValue::Int(n as i64),
    }
}

/// The value that a property of type `ty` has at `offset` in a row that begins
/// at `row`.
pub open spec fn value_at(ty: PropType, b: Seq<u8>, row: int, offset: int) -> PropValue {
    value_in(ty, b.subrange(row + offset, row + offset + type_size(ty)))
}

impl PropType {
    /// The type that `token` names.
    pub fn parse(token: &str) -> (ty: Option<PropType>)
        ensures
            ty == type_named(token@),
    {
        if same_text(token, "float") || same_text(token, "float32") {
            Some(PropType::F32)
        } else if same_text(token, "double") || same_text(token, "float64") {
            Some(PropType::F64)
        } else if same_text(token, "char") || same_text(token, "int8") {
            Some(PropType::I8)
        } else if same_text(token, "uchar") || same_text(token, "uint8") {
            Some(PropType::U8)
        } else if same_text(token, "short") || same_text(token, "int16") {
            Some(PropType::I16)
        } else if same_text(token, "ushort") || same_text(token, "uint16") {
            Some(PropType::U16)
        } else if same_text(token, "int") || same_text(token, "int32") {
            Some(PropType::I32)
        } else if same_text(token, "uint") || same_text(token, "uint32") {
            Some(PropType::U32)
        } else {
            None
        }
    }

    /// The number of bytes of a value of this type.
    pub fn size(self) -> (n: usize)
        ensures
            n == type_size(self),
    {
        match self {
            PropType::I8 | PropType::U8 => 1,
            PropType::I16 | PropType::U16 => 2,
            PropType::F32 | PropType::I32 | PropType::U32 => 4,
            PropType::F64 => 8,
        }
    }

    /// Is the type an integer type?
    pub fn is_integer(self) -> (b: bool)
        ensures
            b == !(self is F32 || self is F64),
    {
        match self {
            PropType::F32 | PropType::F64 => false,
            _ => true,
        }
    }

    /// The value of this type that stands in `bytes` at `at`.
    pub fn read(self, bytes: &Vec<u8>, at: usize) -> (value: PropValue)
        requires
            at + type_size(self) <= bytes@.len(),
        ensures
            value == value_at(self, bytes@, 0, at as int),
    {
        let ghost b = bytes@.subrange(at as int, at + type_size(self));
        let size: usize = self.size();
        let n: u64 = read_le(bytes, at, size);
        match self {
            PropType::F32 => PropValue::Single(n as u32),
            PropType::F64 => PropValue::Double(n),
            PropType::I8 => PropValue::Int(
                if n < 0x80 {
                    n as i64
                } else {
                    n as i64 - 0x100
                },
            ),
            PropType::I16 => PropValue::Int(
                if n < 0x8000 {
                    n as i64
                } else {
                    n as i64 - 0x1_0000
                },
            ),
            PropType::I32 => PropValue::Int(
                if n < 0x8000_0000 {
                    n as i64
                } else {
                    n as i64 - 0x1_0000_0000
                },
            ),
            PropType::U8 | PropType::U16 | PropType::U32 => PropValue::Int(n as i64),
        }
    }
}

/// One more than the greatest number that `n` bytes hold.
spec fn byte_span(n: nat) -> nat
    decreases n,
{
    if n == 0 {
        1
    } else {
        256 * byte_span((n - 1) as nat)
    }
}

proof fn little_endian_bound(b: Seq<u8>)
    ensures
        little_endian(b) < byte_span(b.len()),
    decreases b.len(),
{
    if b.len() > 0 {
        little_endian_bound(b.skip(1));
    }
}

/// The unsigned number in the `size` bytes at `at`, lowest byte first.
fn read_le(bytes: &Vec<u8>, at: usize, size: usize) -> (n: u64)
    requires
        at + size <= bytes@.len(),
        size == 1 || size == 2 || size == 4 || size == 8,
    ensures
        n == little_endian(bytes@.subrange(at as int, at + size)),
        size == 1 ==> n < 0x100,
        size == 2 ==> n < 0x1_0000,
        size == 4 ==> n < 0x1_0000_0000,
{
    let len: usize = bytes.len();
    let mut n: u64 = 0;
    let mut i: usize = size;
    let ghost b = bytes@.subrange(at as int, at + size);
    assert(byte_span(8) == 0x1_0000_0000_0000_0000) by {
        reveal_with_fuel(byte_span, 9);
    }
    assert(b.skip(size as int) =~= Seq::<u8>::empty());
    while i > 0
        invariant
            i <= size <= 8,
            at + size <= len,
            len == bytes@.len(),
            b == bytes@.subrange(at as int, at + size),
            n == little_endian(b.skip(i as int)),
            byte_span(8) == 0x1_0000_0000_0000_0000,
        decreases i,
    {
        i -= 1;
        let ghost rest = b.skip(i as int);
        assert(rest.skip(1) =~= b.skip(i + 1));
        assert(rest[0] == bytes@[at + i]);
        proof {
            little_endian_bound(rest);
            byte_span_grows(rest.len(), 8);
        }
        n = bytes[at + i] as u64 + 256 * n;
    }
    assert(b.skip(0) =~= b);
    proof {
        little_endian_bound(b);
        reveal_with_fuel(byte_span, 5);
    }
    n
}

proof fn byte_span_grows(m: nat, n: nat)
    requires
        m <= n,
    ensures
        byte_span(m) <= byte_span(n),
    decreases n,
{
    if m < n {
        byte_span_grows(m, (n - 1) as nat);
    }
}

/// The end of the line that begins at `from`: behind its line feed, or the end
/// of the bytes.
pub open spec fn line_end(b: Seq<u8>, from: int) -> int
    decreases b.len() - from,
{
    if from >= b.len() {
        from
    } else if b[from] == 10 {
        from + 1
    } else {
        line_end(b, from + 1)
    }
}

/// A line is never empty, and ends within the bytes.
pub proof fn line_end_advances(b: Seq<u8>, from: int)
    requires
        from < b.len(),
    ensures
        from < line_end(b, from) <= b.len(),
    decreases b.len() - from,
{
    reveal_with_fuel(line_end, 2);
    if b[from] != 10 && from + 1 < b.len() {
        line_end_advances(b, from + 1);
    }
}

/// Where the line that begins at `from` ends.
pub fn find_line_end(bytes: &Vec<u8>, from: usize) -> (end: usize)
    requires
        from <= bytes@.len(),
    ensures
        end == line_end(bytes@, from as int),
        from <= end <= bytes@.len(),
        from < bytes@.len() ==> from < end,
{
    let n: usize = bytes.len();
    let mut i: usize = from;
    while i < n && bytes[i] != 10
        invariant
            from <= i <= n,
            n == bytes@.len(),
            line_end(bytes@, from as int) == line_end(bytes@, i as int),
        decreases n - i,
    {
        i += 1;
    }
    if i < n {
        i + 1
    } else {
        i
    }
}

/// The words of the line from `from` up to `to`, if it is UTF-8.
pub open spec fn line_words(b: Seq<u8>, from: int, to: int) -> Option<Seq<Seq<char>>> {
    let line = b.subrange(from, to);
    if vstd::utf8::valid_utf8(line) {
        Some(text::words(vstd::utf8::decode_utf8(line)))
    } else {
        None
    }
}

/// The bytes from `from` up to `to`.
pub fn copy_bytes(bytes: &Vec<u8>, from: usize, to: usize) -> (out: Vec<u8>)
    requires
        from <= to <= bytes@.len(),
    ensures
        out@ == bytes@.subrange(from as int, to as int),
{
    let mut out: Vec<u8> = Vec::new();
    for i in from..to
        invariant
            from <= i <= to <= bytes@.len(),
            out@ == bytes@.subrange(from as int, i as int),
    {
        out.push(bytes[i]);
    }
    out
}

/// The words of the line from `from` up to `to`, if it is UTF-8.
pub fn read_line_words(bytes: &Vec<u8>, from: usize, to: usize) -> (found: Option<Vec<String>>)
    requires
        from <= to <= bytes@.len(),
    ensures
        match found {
            Some(w) => line_words(bytes@, from as int, to as int) == Some(text::views(w@)),
            None => line_words(bytes@, from as int, to as int) is None,
        },
{
    match utf8_text(copy_bytes(bytes, from, to)) {
        Some(line) => Some(split_words(line.as_str())),
        None => None,
    }
}

/// A line of a PLY header. `T` is a text.
#[derive(Debug)]
pub enum HeaderLine<T> {
    /// The encoding of what follows the header.
    Format(T),
    /// The vertex element, with its count.
    Vertex(T),
    /// Another element.
    Element,
    /// A property that holds lists.
    List,
    /// A scalar property: its type and its name.
    Property(T, T),
    /// The end of the header.
    End,
    /// Anything else, comments among it.
    Other,
}

/// What a header line with these words says.
pub open spec fn header_line(w: Seq<Seq<char>>) -> HeaderLine<Seq<char>> {
    if w.len() == 3 && w[0] == "format"@ {
        HeaderLine::Format(w[1])
    } else if w.len() == 3 && w[0] == "element"@ && w[1] == "vertex"@ {
        HeaderLine::Vertex(w[2])
    } else if w.len() >= 1 && w[0] == "element"@ {
        HeaderLine::Element
    } else if w.len() >= 2 && w[0] == "property"@ && w[1] == "list"@ {
        HeaderLine::List
    } else if w.len() == 3 && w[0] == "property"@ {
        HeaderLine::Property(w[1], w[2])
    } else if w.len() == 1 && w[0] == "end_header"@ {
        HeaderLine::End
    } else {
        HeaderLine::Other
    }
}

/// The line with its texts as sequences of characters.
pub open spec fn line_view(line: HeaderLine<String>) -> HeaderLine<Seq<char>> {
    match line {
        HeaderLine::Format(f) => HeaderLine::Format(f@),
        HeaderLine::Vertex(n) => HeaderLine::Vertex(n@),
        HeaderLine::Element => HeaderLine::Element,
        HeaderLine::List => HeaderLine::List,
        HeaderLine::Property(ty, name) => HeaderLine::Property(ty@, name@),
        HeaderLine::End => HeaderLine::End,
        HeaderLine::Other => HeaderLine::Other,
    }
}

/// What a header line with these words says.
pub fn read_header_line(w: &Vec<String>) -> (line: HeaderLine<String>)
    ensures
        line_view(line) == header_line(text::views(w@)),
{
    let n: usize = w.len();
    if n == 0 {
        return HeaderLine::Other;
    }
    let ghost v = text::views(w@);
    assert(v[0] == w@[0]@);
    let first = w[0].as_str();
    if n == 3 && same_text(first, "format") {
        assert(v[1] == w@[1]@);
        HeaderLine::Format(w[1].clone())
    } else if same_text(first, "element") {
        if n == 3 && same_text(w[1].as_str(), "vertex") {
            assert(v[1] == w@[1]@ && v[2] == w@[2]@);
            proof {
                reveal_strlit("format");
                reveal_strlit("element");
            }
            assert("format"@[0] != "element"@[0]);
            HeaderLine::Vertex(w[2].clone())
        } else {
            proof {
                reveal_strlit("format");
                reveal_strlit("element");
            }
            assert("format"@[0] != "element"@[0]);
            assert(n == 3 ==> v[1] == w@[1]@);
            HeaderLine::Element
        }
    } else if n >= 2 && same_text(first, "property") && same_text(w[1].as_str(), "list") {
        assert(v[1] == w@[1]@);
        HeaderLine::List
    } else if n == 3 && same_text(first, "property") {
        assert(v[1] == w@[1]@ && v[2] == w@[2]@);
        HeaderLine::Property(w[1].clone(), w[2].clone())
    } else if n == 1 && same_text(first, "end_header") {
        HeaderLine::End
    } else {
        assert(n >= 2 ==> v[1] == w@[1]@);
        HeaderLine::Other
    }
}

/// Why a PLY file was refused. `T` is a text.
#[derive(Debug)]
pub enum PlyError<T> {
    /// A header line is not UTF-8.
    NotText,
    NotPly,
    HeaderEnded,
    UnsupportedFormat(T),
    BadVertexCount,
    ListOnVertices,
    UnknownType(T),
    NoFormat,
    NoVertexElement,
    /// A property is missing; the names of those that there are.
    MissingProperty(T, T),
    Truncated,
    /// No row holds a usable point.
    Empty,
}

/// The error with its texts as sequences of characters.
pub open spec fn error_view(e: PlyError<String>) -> PlyError<Seq<char>> {
    match e {
        PlyError::NotText => PlyError::NotText,
        PlyError::NotPly => PlyError::NotPly,
        PlyError::HeaderEnded => PlyError::HeaderEnded,
        PlyError::UnsupportedFormat(f) => PlyError::UnsupportedFormat(f@),
        PlyError::BadVertexCount => PlyError::BadVertexCount,
        PlyError::ListOnVertices => PlyError::ListOnVertices,
        PlyError::UnknownType(t) => PlyError::UnknownType(t@),
        PlyError::NoFormat => PlyError::NoFormat,
        PlyError::NoVertexElement => PlyError::NoVertexElement,
        PlyError::MissingProperty(name, found) => PlyError::MissingProperty(name@, found@),
        PlyError::Truncated => PlyError::Truncated,
        PlyError::Empty => PlyError::Empty,
    }
}

/// What a user is told of the error: `points` tells a point cloud from a splat
/// file, and `path` names it.
pub open spec fn error_text(e: PlyError<Seq<char>>, points: bool, path: Seq<char>) -> Seq<char> {
    match e {
        PlyError::NotText => "stream did not contain valid UTF-8"@,
        PlyError::NotPly => "Not a PLY file (missing 'ply' magic)"@,
        PlyError::HeaderEnded => "PLY header ended unexpectedly"@,
        PlyError::UnsupportedFormat(f) => if points {
            "Unsupported PLY format '"@ + f + "'"@
        } else {
            "Unsupported PLY format '"@ + f + "' (need binary_little_endian)"@
        },
        PlyError::BadVertexCount => "Bad vertex count"@,
        PlyError::ListOnVertices => "List properties on vertices are not supported"@,
        PlyError::UnknownType(t) => if points {
            "Unknown PLY type '"@ + t + "'"@
        } else {
            "Unknown PLY property type '"@ + t + "'"@
        },
        PlyError::NoFormat => "PLY header has no format line"@,
        PlyError::NoVertexElement => "PLY has no vertex element"@,
        PlyError::MissingProperty(name, found) => if points {
            "PLY vertex has no '"@ + name + "'"@
        } else {
            "PLY is missing the '"@ + name
                + "' property — not a 3D gaussian splatting file? Found properties: "@ + found
        },
        PlyError::Truncated => if points {
            "PLY ended early — truncated?"@
        } else {
            "PLY ended early — file truncated?"@
        },
        PlyError::Empty => if points {
            "No points found in "@ + path
        } else {
            "No finite gaussians found in "@ + path
        },
    }
}

impl PlyError<String> {
    /// What a user is told of the error.
    pub fn message(&self, points: bool, path: &str) -> (t: String)
        ensures
            t@ == error_text(error_view(*self), points, path@),
    {
        match self {
            PlyError::NotText => "stream did not contain valid UTF-8".to_owned(),
            PlyError::NotPly => "Not a PLY file (missing 'ply' magic)".to_owned(),
            PlyError::HeaderEnded => "PLY header ended unexpectedly".to_owned(),
            PlyError::UnsupportedFormat(f) => {
                let mut t = "Unsupported PLY format '".to_owned();
                t.append(f.as_str());
                t.append(
                    if points {
                        "'"
                    } else {
                        "' (need binary_little_endian)"
                    },
                );
                t
            },
            PlyError::BadVertexCount => "Bad vertex count".to_owned(),
            PlyError::ListOnVertices => "List properties on vertices are not supported".to_owned(),
            PlyError::UnknownType(ty) => {
                let mut t = if points {
                    "Unknown PLY type '".to_owned()
                } else {
                    "Unknown PLY property type '".to_owned()
                };
                t.append(ty.as_str());
                t.append("'");
                t
            },
            PlyError::NoFormat => "PLY header has no format line".to_owned(),
            PlyError::NoVertexElement => "PLY has no vertex element".to_owned(),
            PlyError::MissingProperty(name, found) => {
                if points {
                    let mut t = "PLY vertex has no '".to_owned();
                    t.append(name.as_str());
                    t.append("'");
                    t
                } else {
                    let mut t = "PLY is missing the '".to_owned();
                    t.append(name.as_str());
                    t.append("' property — not a 3D gaussian splatting file? Found properties: ");
                    t.append(found.as_str());
                    t
                }
            },
            PlyError::Truncated => if points {
                "PLY ended early — truncated?".to_owned()
            } else {
                "PLY ended early — file truncated?".to_owned()
            },
            PlyError::Empty => {
                let mut t = if points {
                    "No points found in ".to_owned()
                } else {
                    "No finite gaussians found in ".to_owned()
                };
                t.append(path);
                t
            },
        }
    }
}

/// A property of the vertex element: its name, where it stands in a row, and
/// its type.
#[derive(Debug)]
pub struct Prop {
    pub name: String,
    pub offset: usize,
    pub ty: PropType,
}

/// A property, with its name as characters.
pub type PropModel = (Seq<char>, int, PropType);

/// The properties with their names as characters.
pub open spec fn props_view(props: Seq<Prop>) -> Seq<PropModel> {
    props.map_values(|p: Prop| (p.name@, p.offset as int, p.ty))
}

/// Does every property stand within a row of `stride` bytes?
pub open spec fn props_fit(props: Seq<PropModel>, stride: int) -> bool {
    forall|i: int|
        0 <= i < props.len() ==> 0 <= (#[trigger] props[i]).1 && props[i].1 + type_size(props[i].2)
            <= stride
}

proof fn fields_fit(s: Seq<char>, wide: bool, k: int)
    requires
        0 <= k < text::fields(s, wide).len(),
    ensures
        text::fields(s, wide)[k].len() <= s.len(),
    decreases s.len(),
{
    let before = text::fields(s.drop_last(), wide);
    if k < before.len() {
        fields_fit(s.drop_last(), wide, k);
    }
}

proof fn decoded_is_no_longer(b: Seq<u8>)
    requires
        vstd::utf8::valid_utf8(b),
    ensures
        vstd::utf8::decode_utf8(b).len() <= b.len(),
    decreases b.len(),
{
    if b.len() > 0 {
        decoded_is_no_longer(vstd::utf8::pop_first_scalar(b));
    }
}

/// A line that declares a property takes more bytes than a value of it.
pub proof fn property_line_is_long(b: Seq<u8>, from: int, to: int)
    requires
        0 <= from <= to <= b.len(),
        line_words(b, from, to) matches Some(w) && header_line(w) is Property,
    ensures
        to - from >= 8,
{
    let line = b.subrange(from, to);
    let s = vstd::utf8::decode_utf8(line);
    decoded_is_no_longer(line);
    fields_fit(s, false, 0);
    reveal_strlit("property");
}

/// What the lines of a header have said so far.
#[verifier::ext_equal]
pub struct HeaderModel {
    pub props: Seq<PropModel>,
    pub stride: int,
    pub count: Option<nat>,
    pub in_vertex: bool,
    pub format_ok: bool,
    pub ascii: bool,
}

/// What holds before the first line.
pub open spec fn header_start() -> HeaderModel {
    HeaderModel {
        props: Seq::empty(),
        stride: 0,
        count: None,
        in_vertex: false,
        format_ok: false,
        ascii: false,
    }
}

/// What one line adds. Splat files are binary and have no lists on vertices;
/// point clouds may be text, and their lists are passed over.
pub open spec fn header_step(
    m: HeaderModel,
    line: HeaderLine<Seq<char>>,
    points: bool,
) -> Result<HeaderModel, PlyError<Seq<char>>> {
    match line {
        HeaderLine::Format(f) => if f == "binary_little_endian"@ {
            Ok(HeaderModel { format_ok: true, ascii: false, ..m })
        } else if points && f == "ascii"@ {
            Ok(HeaderModel { format_ok: true, ascii: true, ..m })
        } else {
            Err(PlyError::UnsupportedFormat(f))
        },
        HeaderLine::Vertex(n) => match text::parse_number(n, usize::MAX as int) {
            Some(c) => Ok(HeaderModel { in_vertex: true, count: Some(c), ..m }),
            None => Err(PlyError::BadVertexCount),
        },
        HeaderLine::Element => Ok(HeaderModel { in_vertex: false, ..m }),
        HeaderLine::List => if m.in_vertex && !points {
            Err(PlyError::ListOnVertices)
        } else {
            Ok(m)
        },
        HeaderLine::Property(ty, name) => if !m.in_vertex {
            Ok(m)
        } else {
            match type_named(ty) {
                Some(t) => Ok(
                    HeaderModel {
                        props: m.props.push((name, m.stride, t)),
                        stride: m.stride + type_size(t),
                        ..m
                    },
                ),
                None => Err(PlyError::UnknownType(ty)),
            }
        },
        HeaderLine::End | HeaderLine::Other => Ok(m),
    }
}

/// The header whose lines from `pos` on are still to be read, and where what
/// follows it begins.
pub open spec fn header_from(b: Seq<u8>, pos: int, m: HeaderModel, points: bool) -> Result<
    (HeaderModel, int),
    PlyError<Seq<char>>,
>
    decreases b.len() - pos,
{
    if pos >= b.len() {
        Err(PlyError::HeaderEnded)
    } else {
        let end = line_end(b, pos);
        match line_words(b, pos, end) {
            None => Err(PlyError::NotText),
            Some(w) => match header_line(w) {
                HeaderLine::End => Ok((m, end)),
                line => match header_step(m, line, points) {
                    Err(e) => Err(e),
                    Ok(next) => {
                        proof {
                            line_end_advances(b, pos);
                        }
                        header_from(b, end, next, points)
                    },
                },
            },
        }
    }
}

/// Is the first line the word that marks a PLY file?
pub open spec fn magic(b: Seq<u8>) -> Result<bool, PlyError<Seq<char>>> {
    let line = b.subrange(0, line_end(b, 0));
    if !vstd::utf8::valid_utf8(line) {
        Err(PlyError::NotText)
    } else {
        Ok(text::trimmed(vstd::utf8::decode_utf8(line)) == "ply"@)
    }
}

/// The header of a PLY file, and where what follows it begins.
pub open spec fn header_of(b: Seq<u8>, points: bool) -> Result<
    (HeaderModel, int),
    PlyError<Seq<char>>,
> {
    match magic(b) {
        Err(e) => Err(e),
        Ok(false) => Err(PlyError::NotPly),
        Ok(true) => match header_from(b, line_end(b, 0), header_start(), points) {
            Err(e) => Err(e),
            Ok((m, body)) => if !points && !m.format_ok {
                Err(PlyError::NoFormat)
            } else if m.count is None {
                Err(PlyError::NoVertexElement)
            } else {
                Ok((m, body))
            },
        },
    }
}

/// The bytes of a row with the given properties.
pub open spec fn row_size(props: Seq<PropModel>) -> int
    decreases props.len(),
{
    if props.len() == 0 {
        0
    } else {
        row_size(props.drop_last()) + type_size(props.last().2)
    }
}

proof fn header_keeps_row_size(b: Seq<u8>, pos: int, m: HeaderModel, points: bool)
    requires
        m.stride == row_size(m.props),
    ensures
        header_from(b, pos, m, points) matches Ok((r, _)) ==> r.stride == row_size(r.props),
    decreases b.len() - pos,
{
    if pos < b.len() {
        let end = line_end(b, pos);
        line_end_advances(b, pos);
        if let Some(w) = line_words(b, pos, end) {
            if let Ok(next) = header_step(m, header_line(w), points) {
                if next.props.len() > m.props.len() {
                    assert(next.props.drop_last() =~= m.props);
                }
                header_keeps_row_size(b, end, next, points);
            }
        }
    }
}

/// A row is as long as its properties together.
pub proof fn row_holds_its_properties(b: Seq<u8>, points: bool)
    ensures
        header_of(b, points) matches Ok((m, _)) ==> m.stride == row_size(m.props),
{
    header_keeps_row_size(b, line_end(b, 0), header_start(), points);
}

/// The vertex rows of a PLY file: their properties in order of declaration,
/// their length and number, whether they are text, and where they begin.
#[derive(Debug)]
pub struct VertexLayout {
    pub props: Vec<Prop>,
    pub stride: usize,
    pub count: usize,
    pub ascii: bool,
    pub body: usize,
}

impl VertexLayout {
    /// Does every property stand within its row?
    pub open spec fn well_formed(self) -> bool {
        props_fit(props_view(self.props@), self.stride as int)
    }

    /// Is this the layout that the header declares?
    pub open spec fn describes(self, m: HeaderModel, body: int) -> bool {
        &&& props_view(self.props@) == m.props
        &&& self.stride == m.stride
        &&& m.count == Some(self.count as nat)
        &&& self.ascii == m.ascii
        &&& self.body == body
    }
}

/// Reads the header of a PLY file.
pub fn parse_header(bytes: &Vec<u8>, points: bool) -> (r: Result<VertexLayout, PlyError<String>>)
    ensures
        match r {
            Ok(layout) => {
                &&& header_of(bytes@, points) matches Ok((m, body)) && layout.describes(m, body)
                &&& layout.well_formed()
                &&& layout.body <= bytes@.len()
            },
            Err(e) => header_of(bytes@, points) == Err::<(HeaderModel, int), _>(error_view(e)),
        },
{
    let n: usize = bytes.len();
    let first: usize = find_line_end(bytes, 0);
    match utf8_text(copy_bytes(bytes, 0, first)) {
        None => return Err(PlyError::NotText),
        Some(line) => {
            if !same_text(text::trim(line.as_str()).as_str(), "ply") {
                return Err(PlyError::NotPly);
            }
        },
    }
    let mut props: Vec<Prop> = Vec::new();
    let mut stride: usize = 0;
    let mut count: Option<usize> = None;
    let mut in_vertex = false;
    let mut format_ok = false;
    let mut ascii = false;
    let mut pos: usize = first;
    let ghost mut m = header_start();
    assert(props_view(props@) =~= m.props);
    loop
        invariant
            n == bytes@.len(),
            pos <= n,
            stride <= pos,
            magic(bytes@) == Ok::<bool, PlyError<Seq<char>>>(true),
            header_from(bytes@, line_end(bytes@, 0), header_start(), points) == header_from(
                bytes@,
                pos as int,
                m,
                points,
            ),
            props_view(props@) == m.props,
            props_fit(m.props, stride as int),
            stride == m.stride,
            m.count == (match count {
                Some(c) => Some(c as nat),
                None => None,
            }),
            in_vertex == m.in_vertex,
            format_ok == m.format_ok,
            ascii == m.ascii,
        decreases n - pos,
    {
        if pos == n {
            return Err(PlyError::HeaderEnded);
        }
        let end: usize = find_line_end(bytes, pos);
        let found = match read_line_words(bytes, pos, end) {
            Some(w) => w,
            None => return Err(PlyError::NotText),
        };
        let line = read_header_line(&found);
        let ghost before = m;
        proof {
            if header_step(m, line_view(line), points) is Ok {
                m = header_step(m, line_view(line), points)->Ok_0;
            }
        }
        match line {
            HeaderLine::End => {
                if !points && !format_ok {
                    return Err(PlyError::NoFormat);
                }
                return match count {
                    None => Err(PlyError::NoVertexElement),
                    Some(c) => Ok(VertexLayout { props, stride, count: c, ascii, body: end }),
                };
            },
            HeaderLine::Format(f) => {
                if same_text(f.as_str(), "binary_little_endian") {
                    format_ok = true;
                    ascii = false;
                } else if points && same_text(f.as_str(), "ascii") {
                    format_ok = true;
                    ascii = true;
                } else {
                    return Err(PlyError::UnsupportedFormat(f));
                }
            },
            HeaderLine::Vertex(c) => {
                match text::parse_usize(c.as_str()) {
                    Some(v) => {
                        in_vertex = true;
                        count = Some(v);
                    },
                    None => return Err(PlyError::BadVertexCount),
                }
            },
            HeaderLine::Element => {
                in_vertex = false;
            },
            HeaderLine::List => {
                if in_vertex && !points {
                    return Err(PlyError::ListOnVertices);
                }
            },
            HeaderLine::Property(ty, name) => {
                if in_vertex {
                    match PropType::parse(ty.as_str()) {
                        Some(t) => {
                            proof {
                                property_line_is_long(bytes@, pos as int, end as int);
                            }
                            let ghost old_props = props@;
                            props.push(Prop { name, offset: stride, ty: t });
                            assert(props_view(props@) =~= before.props.push(
                                (name@, stride as int, t),
                            ));
                            stride += t.size();
                        },
                        None => return Err(PlyError::UnknownType(ty)),
                    }
                }
            },
            HeaderLine::Other => {},
        }
        pos = end;
    }
}

/// The first property with the name.
pub open spec fn find_prop(props: Seq<PropModel>, name: Seq<char>) -> Option<(int, PropType)>
    decreases props.len(),
{
    if props.len() == 0 {
        None
    } else if props[0].0 == name {
        Some((props[0].1, props[0].2))
    } else {
        find_prop(props.skip(1), name)
    }
}

proof fn find_prop_is(props: Seq<PropModel>, name: Seq<char>, i: int)
    requires
        0 <= i <= props.len(),
        forall|k: int| 0 <= k < i ==> (#[trigger] props[k]).0 != name,
        i < props.len() ==> props[i].0 == name,
    ensures
        find_prop(props, name) == if i < props.len() {
            Some((props[i].1, props[i].2))
        } else {
            None::<(int, PropType)>
        },
    decreases i,
{
    if i > 0 {
        let rest = props.skip(1);
        assert forall|k: int| 0 <= k < i - 1 implies (#[trigger] rest[k]).0 != name by {
            assert(rest[k] == props[k + 1]);
        }
        find_prop_is(rest, name, i - 1);
    }
}

/// The names of the properties.
pub open spec fn prop_names(props: Seq<PropModel>) -> Seq<Seq<char>> {
    props.map_values(|p: PropModel| p.0)
}

impl VertexLayout {
    /// Where the first property with the name stands in a row, and its type.
    pub fn offset_of(&self, name: &str) -> (found: Option<(usize, PropType)>)
        ensures
            match found {
                Some((offset, ty)) => find_prop(props_view(self.props@), name@) == Some(
                    (offset as int, ty),
                ),
                None => find_prop(props_view(self.props@), name@) is None,
            },
            self.well_formed() ==> (found matches Some((offset, ty)) ==> offset + type_size(ty)
                <= self.stride),
    {
        let ghost v = props_view(self.props@);
        let n: usize = self.props.len();
        let mut i: usize = 0;
        while i < n
            invariant
                i <= n,
                n == self.props@.len(),
                v == props_view(self.props@),
                forall|k: int| 0 <= k < i ==> (#[trigger] v[k]).0 != name@,
            decreases n - i,
        {
            assert(v[i as int].0 == self.props@[i as int].name@);
            if same_text(self.props[i].name.as_str(), name) {
                proof {
                    find_prop_is(v, name@, i as int);
                }
                return Some((self.props[i].offset, self.props[i].ty));
            }
            i += 1;
        }
        proof {
            find_prop_is(v, name@, n as int);
        }
        None
    }

    /// Where the property stands, or an error that names it and those that
    /// there are.
    pub fn require(&self, name: &str) -> (r: Result<(usize, PropType), PlyError<String>>)
        ensures
            match r {
                Ok((offset, ty)) => find_prop(props_view(self.props@), name@) == Some(
                    (offset as int, ty),
                ),
                Err(e) => {
                    &&& find_prop(props_view(self.props@), name@) is None
                    &&& error_view(e) == PlyError::MissingProperty(
                        name@,
                        text::joined(prop_names(props_view(self.props@)), ", "@),
                    )
                },
            },
            self.well_formed() ==> (r matches Ok((offset, ty)) ==> offset + type_size(ty)
                <= self.stride),
    {
        match self.offset_of(name) {
            Some(found) => Ok(found),
            None => {
                let mut names: Vec<String> = Vec::new();
                for i in 0..self.props.len()
                    invariant
                        text::views(names@) == prop_names(props_view(self.props@)).take(i as int),
                {
                    let ghost before = text::views(names@);
                    names.push(self.props[i].name.clone());
                    assert(text::views(names@) =~= before.push(self.props@[i as int].name@));
                    assert(prop_names(props_view(self.props@)).take(i as int + 1) =~= before.push(
                        self.props@[i as int].name@,
                    ));
                }
                assert(prop_names(props_view(self.props@)).take(self.props@.len() as int)
                    =~= prop_names(props_view(self.props@)));
                Err(PlyError::MissingProperty(name.to_owned(), text::join(&names, ", ")))
            },
        }
    }
}

} // verus!
