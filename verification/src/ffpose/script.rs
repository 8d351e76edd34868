//! The script that runs the model, and where a copy of it is kept.

use super::pipeline::FfBackend;
use crate::text::{self, hex_text, replace};
use vstd::prelude::*;

verus! {

/// Where the hash of no bytes begins.
pub const FNV_OFFSET: u64 = 0xcbf29ce484222325;

/// The multiplier of the hash.
pub const FNV_PRIME: u64 = 0x100000001b3;

/// The FNV-1a hash of bytes.
pub open spec fn fnv(b: Seq<u8>) -> u64
    decreases b.len(),
{
    if b.len() == 0 {
        FNV_OFFSET
    } else {
        (fnv(b.drop_last()) ^ (b.last() as u64)).wrapping_mul(FNV_PRIME)
    }
}

/// The FNV-1a hash of a text, enough to tell copies of the script apart.
pub fn fnv1a(data: &str) -> (hash: u64)
    ensures
        hash == fnv(vstd::utf8::encode_utf8(data@)),
{
    let bytes = data.as_bytes();
    let mut hash: u64 = FNV_OFFSET;
    for i in 0..bytes.len()
        invariant
            hash == fnv(bytes@.take(i as int)),
    {
        assert(bytes@.take(i as int + 1).drop_last() =~= bytes@.take(i as int));
        hash = (hash ^ (bytes[i] as u64)).wrapping_mul(FNV_PRIME);
    }
    assert(bytes@.take(bytes@.len() as int) =~= bytes@);
    hash
}

/// The extra that the backend's Python package needs.
pub open spec fn extras(backend: FfBackend) -> Seq<char> {
    match backend {
        FfBackend::MapAnything => ""@,
        FfBackend::Mast3r => "[mast3r]"@,
    }
}

/// The script for a backend: its template with the extra filled in.
pub open spec fn script_text(template: Seq<char>, backend: FfBackend) -> Seq<char> {
    text::replaced(template, "{{EXTRAS}}"@, extras(backend))
}

/// The name under which a script is kept, told by what it holds.
pub open spec fn script_name(body: Seq<char>) -> Seq<char> {
    "mapanything_poses-"@ + text::hex(fnv(vstd::utf8::encode_utf8(body)) as nat, 16) + ".py"@
}

/// The script for a backend.
pub fn script_body(template: &str, backend: FfBackend) -> (body: String)
    ensures
        body@ == script_text(template@, backend),
{
    proof {
        reveal_strlit("{{EXTRAS}}");
    }
    match backend {
        FfBackend::MapAnything => replace(template, "{{EXTRAS}}", ""),
        FfBackend::Mast3r => replace(template, "{{EXTRAS}}", "[mast3r]"),
    }
}

/// The name under which a script is kept.
pub fn script_file_name(body: &str) -> (name: String)
    ensures
        name@ == script_name(body@),
{
    let mut name = "mapanything_poses-".to_owned();
    name.append(hex_text(fnv1a(body), 16).as_str());
    name.append(".py");
    name
}

/// Which script is run.
#[derive(Debug)]
pub enum ScriptPlan {
    /// The user's own, at this path.
    Own(String),
    /// The bundled one, to be kept under this name.
    Bundled { name: String, body: String },
}

/// Is this the bundled script for a backend, under the name of what it holds?
pub open spec fn is_bundled(plan: ScriptPlan, template: Seq<char>, backend: FfBackend) -> bool {
    plan matches ScriptPlan::Bundled { name, body } && body@ == script_text(template, backend)
        && name@ == script_name(body@)
}

/// Which script is run for a backend. `own` is the path that the user set, and
/// whether it is a file; `has_cache` tells whether there is a place to keep the
/// bundled one.
pub fn materialize_script(
    template: &str,
    backend: FfBackend,
    own: Option<(String, bool)>,
    has_cache: bool,
) -> (r: Result<ScriptPlan, String>)
    ensures
        match own {
            Some((path, true)) => r matches Ok(ScriptPlan::Own(p)) && p@ == path@,
            Some((path, false)) => r matches Err(e) && e@ == "MESHSPLAT_FFPOSE_SCRIPT points at "@
                + path@ + ", which is not a file"@,
            None => if has_cache {
                r matches Ok(plan) && is_bundled(plan, template@, backend)
            } else {
                r matches Err(e) && e@ == "No user cache directory available"@
            },
        },
{
    match own {
        Some((path, is_file)) => {
            if is_file {
                return Ok(ScriptPlan::Own(path));
            }
            let mut e = "MESHSPLAT_FFPOSE_SCRIPT points at ".to_owned();
            e.append(path.as_str());
            e.append(", which is not a file");
            return Err(e);
        },
        None => {},
    }
    if !has_cache {
        return Err("No user cache directory available".to_owned());
    }
    let body = script_body(template, backend);
    let name = script_file_name(body.as_str());
    Ok(ScriptPlan::Bundled { name, body })
}

proof fn longer_filling(s: Seq<char>, part: Seq<char>, short: Seq<char>, long: Seq<char>)
    requires
        part.len() > 0,
        short.len() < long.len(),
    ensures
        text::replaced(s, part, short).len() <= text::replaced(s, part, long).len(),
        text::contains(s, part) ==> text::replaced(s, part, short).len() < text::replaced(
            s,
            part,
            long,
        ).len(),
        !text::contains(s, part) ==> text::replaced(s, part, short) == text::replaced(
            s,
            part,
            long,
        ),
    decreases s.len(),
{
    if s.len() < part.len() {
    } else if part.is_prefix_of(s) {
        assert(text::part_at(s, part, 0)) by {
            assert(s.subrange(0, part.len() as int) =~= part);
        }
        longer_filling(s.skip(part.len() as int), part, short, long);
    } else {
        let rest = s.skip(1);
        longer_filling(rest, part, short, long);
        if text::contains(s, part) {
            let i = choose|i: int| #[trigger] text::part_at(s, part, i);
            if i == 0 {
                assert(part.is_prefix_of(s)) by {
                    assert forall|k: int| 0 <= k < part.len() implies part[k] == s[k] by {
                        assert(s.subrange(0, part.len() as int)[k] == s[k]);
                    }
                    assert(s.subrange(0, part.len() as int) =~= part);
                }
            }
            assert(rest.subrange(i - 1, i - 1 + part.len()) =~= s.subrange(i, i + part.len()));
            assert(text::part_at(rest, part, i - 1));
        } else {
            assert forall|i: int| !#[trigger] text::part_at(rest, part, i) by {
                if text::part_at(rest, part, i) {
                    assert(s.subrange(i + 1, i + 1 + part.len()) =~= rest.subrange(
                        i,
                        i + part.len(),
                    ));
                    assert(text::part_at(s, part, i + 1));
                }
            }
        }
    }
}

/// The two backends run different scripts exactly where the template has a place
/// for the extra.
pub proof fn backends_have_scripts_of_their_own(template: Seq<char>)
    ensures
        text::contains(template, "{{EXTRAS}}"@) <==> script_text(template, FfBackend::MapAnything)
            != script_text(template, FfBackend::Mast3r),
{
    reveal_strlit("{{EXTRAS}}");
    reveal_strlit("");
    reveal_strlit("[mast3r]");
    longer_filling(template, "{{EXTRAS}}"@, ""@, "[mast3r]"@);
}

/// A backend's bundled script is the same each time, under the same name.
pub proof fn bundled_script_keeps_its_name(
    template: Seq<char>,
    backend: FfBackend,
    first: ScriptPlan,
    again: ScriptPlan,
)
    requires
        is_bundled(first, template, backend),
        is_bundled(again, template, backend),
    ensures
        first->name@ == again->name@,
        first->body@ == again->body@,
{
}

/// How many numbers `width` hexadecimal digits can write.
spec fn hex_room(width: nat) -> nat
    decreases width,
{
    if width == 0 {
        1
    } else {
        16 * hex_room((width - 1) as nat)
    }
}

proof fn hex_tells_apart(n: nat, m: nat, width: nat)
    requires
        n < hex_room(width),
        m < hex_room(width),
        text::hex(n, width) == text::hex(m, width),
    ensures
        n == m,
    decreases width,
{
    if width > 0 {
        let (a, b) = (text::hex(n, width), text::hex(m, width));
        assert(a.last() == text::hex_char(n % 16) && b.last() == text::hex_char(m % 16));
        assert(n % 16 == m % 16);
        assert(a.drop_last() =~= text::hex(n / 16, (width - 1) as nat));
        assert(b.drop_last() =~= text::hex(m / 16, (width - 1) as nat));
        hex_tells_apart(n / 16, m / 16, (width - 1) as nat);
    }
}

proof fn hex_has_width(n: nat, width: nat)
    ensures
        text::hex(n, width).len() == width,
    decreases width,
{
    if width > 0 {
        hex_has_width(n / 16, (width - 1) as nat);
    }
}

/// Two scripts share a name exactly where they share a hash.
pub proof fn names_tell_hashes_apart(a: Seq<char>, b: Seq<char>)
    ensures
        script_name(a) == script_name(b) <==> fnv(vstd::utf8::encode_utf8(a)) == fnv(
            vstd::utf8::encode_utf8(b),
        ),
{
    let n = fnv(vstd::utf8::encode_utf8(a)) as nat;
    let m = fnv(vstd::utf8::encode_utf8(b)) as nat;
    hex_has_width(n, 16);
    hex_has_width(m, 16);
    if script_name(a) == script_name(b) {
        let start = "mapanything_poses-"@.len() as int;
        assert(script_name(a).subrange(start, start + 16) =~= text::hex(n, 16));
        assert(script_name(b).subrange(start, start + 16) =~= text::hex(m, 16));
        assert(hex_room(16) == 0x1_0000_0000_0000_0000) by {
            reveal_with_fuel(hex_room, 17);
        }
        hex_tells_apart(n, m, 16);
    }
}

/// The hash that bytes make of the hash `h`.
spec fn fnv_on(h: u64, b: Seq<u8>) -> u64
    decreases b.len(),
{
    if b.len() == 0 {
        h
    } else {
        (fnv_on(h, b.drop_last()) ^ (b.last() as u64)).wrapping_mul(FNV_PRIME)
    }
}

proof fn fnv_starts_at_offset(b: Seq<u8>)
    ensures
        fnv(b) == fnv_on(FNV_OFFSET, b),
    decreases b.len(),
{
    if b.len() > 0 {
        fnv_starts_at_offset(b.drop_last());
    }
}

proof fn fnv_goes_on(h: u64, a: Seq<u8>, b: Seq<u8>)
    ensures
        fnv_on(h, a + b) == fnv_on(fnv_on(h, a), b),
    decreases b.len(),
{
    if b.len() == 0 {
        assert(a + b =~= a);
    } else {
        assert((a + b).drop_last() =~= a + b.drop_last());
        fnv_goes_on(h, a, b.drop_last());
    }
}

proof fn encoding_is_joined(a: Seq<char>, b: Seq<char>)
    ensures
        vstd::utf8::encode_utf8(a + b) == vstd::utf8::encode_utf8(a) + vstd::utf8::encode_utf8(b),
    decreases a.len(),
{
    if a.len() == 0 {
        assert(a + b =~= b);
        assert(vstd::utf8::encode_utf8(a) + vstd::utf8::encode_utf8(b)
            =~= vstd::utf8::encode_utf8(b));
    } else {
        assert((a + b).drop_first() =~= a.drop_first() + b);
        encoding_is_joined(a.drop_first(), b);
        let first = vstd::utf8::encode_scalar(a[0] as u32);
        assert(vstd::utf8::encode_utf8(a + b) =~= first + (vstd::utf8::encode_utf8(a.drop_first())
            + vstd::utf8::encode_utf8(b)));
        assert(vstd::utf8::encode_utf8(a) + vstd::utf8::encode_utf8(b) =~= first + (
        vstd::utf8::encode_utf8(a.drop_first()) + vstd::utf8::encode_utf8(b)));
    }
}

/// Do the lowest three bits of two hashes agree, but for the highest of them where
/// `flipped`?
spec fn low_bits(h: u64, g: u64, flipped: bool) -> bool {
    h % 8 == if flipped {
        (g % 8 + 4) % 8
    } else {
        (g % 8) as int
    }
}

/// The lowest three bits of the next hash, from those of a hash and of a byte.
spec fn next_low_bits(x: u64, c: u64) -> u64 {
    (((x ^ c) * 3) % 8) as u64
}

/// The lowest three bits of a hash go into those of the next one alone.
proof fn low_bits_of_next(h: u64, c: u8)
    ensures
        (h ^ (c as u64)).wrapping_mul(FNV_PRIME) % 8 == next_low_bits(
            (h % 8) as u64,
            (c % 8) as u64,
        ),
{
    let d: u64 = c as u64;
    let x: u64 = h ^ d;
    assert((h ^ d) % 8 == (h % 8) ^ (d % 8)) by (bit_vector);
    assert((x * FNV_PRIME) % 8 == ((x % 8) * 3) % 8);
}

proof fn common_bytes_keep_low_bits(h: u64, g: u64, b: Seq<u8>, flipped: bool)
    requires
        low_bits(h, g, flipped),
    ensures
        low_bits(fnv_on(h, b), fnv_on(g, b), flipped),
    decreases b.len(),
{
    if b.len() > 0 {
        let (x, y) = (fnv_on(h, b.drop_last()), fnv_on(g, b.drop_last()));
        let c = b.last();
        common_bytes_keep_low_bits(h, g, b.drop_last(), flipped);
        low_bits_of_next(x, c);
        low_bits_of_next(y, c);
        let p: u64 = (x % 8) as u64;
        let q: u64 = (y % 8) as u64;
        let r: u64 = (c % 8) as u64;
        assert(p == ((q + 4) % 8) as u64 ==> next_low_bits(p, r) == ((next_low_bits(q, r) + 4)
            % 8) as u64) by (bit_vector)
            requires
                p < 8,
                q < 8,
                r < 8,
        ;
    }
}

proof fn extra_flips_low_bits(h: u64)
    ensures
        low_bits(fnv_on(h, vstd::utf8::encode_utf8("[mast3r]"@)), h, true),
{
    reveal_strlit("[mast3r]");
    let b = vstd::utf8::encode_utf8("[mast3r]"@);
    assert(vstd::utf8::is_ascii_chars("[mast3r]"@));
    vstd::utf8::is_ascii_chars_encode_utf8("[mast3r]"@);
    assert(b =~= seq![0x5bu8, 0x6d, 0x61, 0x73, 0x74, 0x33, 0x72, 0x5d]) by {
        assert("[mast3r]"@[0] as u8 == b[0]);
    }
    let h0: u64 = fnv_on(h, b.take(0));
    let h1: u64 = fnv_on(h, b.take(1));
    let h2: u64 = fnv_on(h, b.take(2));
    let h3: u64 = fnv_on(h, b.take(3));
    let h4: u64 = fnv_on(h, b.take(4));
    let h5: u64 = fnv_on(h, b.take(5));
    let h6: u64 = fnv_on(h, b.take(6));
    let h7: u64 = fnv_on(h, b.take(7));
    assert forall|n: int| 0 < n <= 8 implies #[trigger] b.take(n).drop_last() == b.take(
        n - 1,
    ) by {
        assert(b.take(n).drop_last() =~= b.take(n - 1));
    }
    assert(b.take(8) =~= b);
    low_bits_of_next(h0, 0x5b);
    low_bits_of_next(h1, 0x6d);
    low_bits_of_next(h2, 0x61);
    low_bits_of_next(h3, 0x73);
    low_bits_of_next(h4, 0x74);
    low_bits_of_next(h5, 0x33);
    low_bits_of_next(h6, 0x72);
    low_bits_of_next(h7, 0x5d);
    let x: u64 = (h % 8) as u64;
    let y: u64 = next_low_bits(
        next_low_bits(
            next_low_bits(
                next_low_bits(
                    next_low_bits(next_low_bits(next_low_bits(next_low_bits(x, 3), 5), 1), 3),
                    4,
                ),
                3,
            ),
            2,
        ),
        5,
    );
    assert(fnv_on(h, b) % 8 == y);
    every_low_bit_flips(x);
}

proof fn every_low_bit_flips(x: u64)
    by (bit_vector)
    requires
        x < 8,
    ensures
        next_low_bits(
            next_low_bits(
                next_low_bits(
                    next_low_bits(
                        next_low_bits(next_low_bits(next_low_bits(next_low_bits(x, 3), 5), 1), 3),
                        4,
                    ),
                    3,
                ),
                2,
            ),
            5,
        ) == ((x + 4) % 8) as u64,
{
}

/// Each place for the extra flips a bit between the hashes of the two scripts.
proof fn places_flip_low_bits(s: Seq<char>, h: u64, g: u64, flipped: bool)
    requires
        low_bits(h, g, flipped),
    ensures
        low_bits(
            fnv_on(h, vstd::utf8::encode_utf8(text::replaced(s, "{{EXTRAS}}"@, "[mast3r]"@))),
            fnv_on(g, vstd::utf8::encode_utf8(text::replaced(s, "{{EXTRAS}}"@, ""@))),
            flipped != (text::occurrences(s, "{{EXTRAS}}"@) % 2 == 1),
        ),
    decreases s.len(),
{
    reveal_strlit("{{EXTRAS}}");
    reveal_strlit("");
    let part = "{{EXTRAS}}"@;
    if s.len() < part.len() {
        common_bytes_keep_low_bits(h, g, vstd::utf8::encode_utf8(s), flipped);
    } else if part.is_prefix_of(s) {
        let rest = s.skip(part.len() as int);
        let extra = vstd::utf8::encode_utf8("[mast3r]"@);
        let next: u64 = fnv_on(h, extra);
        extra_flips_low_bits(h);
        places_flip_low_bits(rest, next, g, !flipped);
        let filled = text::replaced(rest, part, "[mast3r]"@);
        encoding_is_joined("[mast3r]"@, filled);
        fnv_goes_on(h, extra, vstd::utf8::encode_utf8(filled));
        assert(""@ + text::replaced(rest, part, ""@) =~= text::replaced(rest, part, ""@));
    } else {
        let first = seq![s[0]];
        let rest = s.skip(1);
        let bytes = vstd::utf8::encode_utf8(first);
        common_bytes_keep_low_bits(h, g, bytes, flipped);
        places_flip_low_bits(rest, fnv_on(h, bytes), fnv_on(g, bytes), flipped);
        let (filled, plain) = (
            text::replaced(rest, part, "[mast3r]"@),
            text::replaced(rest, part, ""@),
        );
        encoding_is_joined(first, filled);
        encoding_is_joined(first, plain);
        fnv_goes_on(h, bytes, vstd::utf8::encode_utf8(filled));
        fnv_goes_on(g, bytes, vstd::utf8::encode_utf8(plain));
    }
}

/// Where the template has one place for the extra, or any odd number of them, the
/// two backends' scripts are kept under different names.
pub proof fn backends_have_names_of_their_own(template: Seq<char>)
    requires
        text::occurrences(template, "{{EXTRAS}}"@) % 2 == 1,
    ensures
        script_name(script_text(template, FfBackend::MapAnything)) != script_name(
            script_text(template, FfBackend::Mast3r),
        ),
{
    let plain = script_text(template, FfBackend::MapAnything);
    let filled = script_text(template, FfBackend::Mast3r);
    places_flip_low_bits(template, FNV_OFFSET, FNV_OFFSET, false);
    fnv_starts_at_offset(vstd::utf8::encode_utf8(plain));
    fnv_starts_at_offset(vstd::utf8::encode_utf8(filled));
    names_tell_hashes_apart(plain, filled);
}

} // verus!
