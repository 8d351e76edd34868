//! Which files of a directory are photos.
//!
//! File names are bytes here: a name need not be text to end in `.jpg`.

use crate::sorting::{self, sorted_order, ByName};
use crate::text;
use vstd::prelude::*;

verus! {

/// A dot.
pub const DOT: u8 = 46;

/// Where the last dot stands; -1 if there is none.
pub open spec fn last_dot(name: Seq<u8>) -> int
    decreases name.len(),
{
    if name.len() == 0 {
        -1
    } else if name.last() == DOT {
        name.len() - 1
    } else {
        last_dot(name.drop_last())
    }
}

proof fn last_dot_is(name: Seq<u8>, i: int)
    requires
        -1 <= i < name.len(),
        forall|k: int| i < k < name.len() ==> name[k] != DOT,
        i >= 0 ==> name[i] == DOT,
    ensures
        last_dot(name) == i,
    decreases name.len(),
{
    if name.len() > 0 && i < name.len() - 1 {
        last_dot_is(name.drop_last(), i);
    }
}

/// The extension of a file name: what follows its last dot, unless that dot
/// leads the name.
pub open spec fn extension(name: Seq<u8>) -> Option<Seq<u8>> {
    if last_dot(name) <= 0 {
        None
    } else {
        Some(name.skip(last_dot(name) + 1))
    }
}

/// The ASCII lower case of a byte.
pub open spec fn lower_byte(b: u8) -> u8 {
    if 65 <= b <= 90 {
        (b + 32) as u8
    } else {
        b
    }
}

/// ASCII letters in lower case.
pub open spec fn lower_bytes(s: Seq<u8>) -> Seq<u8> {
    s.map_values(|b: u8| lower_byte(b))
}

/// The extensions of images, in lower case: jpg, jpeg, png, tif, tiff, bmp.
pub open spec fn image_extensions() -> Seq<Seq<u8>> {
    seq![
        seq![106u8, 112, 103],
        seq![106u8, 112, 101, 103],
        seq![112u8, 110, 103],
        seq![116u8, 105, 102],
        seq![116u8, 105, 102, 102],
        seq![98u8, 109, 112],
    ]
}

/// Does the name have the extension of an image, letters in any case?
pub open spec fn image_name(name: Seq<u8>) -> bool {
    extension(name) matches Some(e) && image_extensions().contains(lower_bytes(e))
}

/// The extensions that are looked for, as they are told to the user.
pub fn image_extension_list() -> (t: String)
    ensures
        t@ == "jpg/jpeg/png/tif/tiff/bmp"@,
{
    "jpg/jpeg/png/tif/tiff/bmp".to_owned()
}

fn to_lower_byte(b: u8) -> (l: u8)
    ensures
        l == lower_byte(b),
{
    if 65 <= b && b <= 90 {
        b + 32
    } else {
        b
    }
}

fn bytes_are(name: &Vec<u8>, from: usize, want: &Vec<u8>) -> (same: bool)
    requires
        from <= name@.len(),
    ensures
        same == (lower_bytes(name@.skip(from as int)) == want@),
{
    let n: usize = name.len();
    let ghost have = lower_bytes(name@.skip(from as int));
    if n - from != want.len() {
        return false;
    }
    let mut i: usize = 0;
    while i < want.len()
        invariant
            i <= want@.len(),
            n == name@.len(),
            from + want@.len() == n,
            have == lower_bytes(name@.skip(from as int)),
            forall|k: int| 0 <= k < i ==> have[k] == want@[k],
        decreases want@.len() - i,
    {
        assert(have[i as int] == lower_byte(name@[from + i]));
        if to_lower_byte(name[from + i]) != want[i] {
            return false;
        }
        i += 1;
    }
    assert(have =~= want@);
    true
}

/// Does the name have the extension of an image?
pub fn is_image_name(name: &Vec<u8>) -> (b: bool)
    ensures
        b == image_name(name@),
{
    let n: usize = name.len();
    let mut i: usize = n;
    while i > 0 && name[i - 1] != DOT
        invariant
            i <= n,
            n == name@.len(),
            forall|k: int| i <= k < n ==> name@[k] != DOT,
        decreases i,
    {
        i -= 1;
    }
    proof {
        last_dot_is(name@, i - 1);
    }
    if i <= 1 {
        return false;
    }
    let ghost e = lower_bytes(name@.skip(i as int));
    let jpg: Vec<u8> = vec![106, 112, 103];
    let jpeg: Vec<u8> = vec![106, 112, 101, 103];
    let png: Vec<u8> = vec![112, 110, 103];
    let tif: Vec<u8> = vec![116, 105, 102];
    let tiff: Vec<u8> = vec![116, 105, 102, 102];
    let bmp: Vec<u8> = vec![98, 109, 112];
    let ghost all = image_extensions();
    assert(all[0] =~= jpg@ && all[1] =~= jpeg@ && all[2] =~= png@);
    assert(all[3] =~= tif@ && all[4] =~= tiff@ && all[5] =~= bmp@);
    assert(all.contains(e) <==> (e == all[0] || e == all[1] || e == all[2] || e == all[3] || e
        == all[4] || e == all[5]));
    bytes_are(name, i, &jpg) || bytes_are(name, i, &jpeg) || bytes_are(name, i, &png) || bytes_are(
        name,
        i,
        &tif,
    ) || bytes_are(name, i, &tiff) || bytes_are(name, i, &bmp)
}

/// The entries of a directory: a name each, and whether it is a file.
pub open spec fn images_among(entries: Seq<(Vec<u8>, bool)>) -> Seq<Seq<u8>>
    decreases entries.len(),
{
    if entries.len() == 0 {
        Seq::empty()
    } else {
        let before = images_among(entries.drop_last());
        let (name, is_file) = entries.last();
        if is_file && image_name(name@) {
            before.push(name@)
        } else {
            before
        }
    }
}

/// The names as sequences of bytes.
pub open spec fn name_views(names: Seq<Vec<u8>>) -> Seq<Seq<u8>> {
    names.map_values(|n: Vec<u8>| n@)
}

fn copy_name(name: &Vec<u8>) -> (out: Vec<u8>)
    ensures
        out@ == name@,
{
    let mut out: Vec<u8> = Vec::new();
    for i in 0..name.len()
        invariant
            out@ == name@.take(i as int),
    {
        out.push(name[i]);
    }
    assert(name@.take(name@.len() as int) =~= name@);
    out
}

/// The names of the images among the entries of a directory, sorted.
pub fn list_images(entries: &Vec<(Vec<u8>, bool)>) -> (images: Vec<Vec<u8>>)
    ensures
        name_views(images@).to_multiset() == images_among(entries@).to_multiset(),
        forall|a: int, b: int|
            0 <= a <= b < images@.len() ==> sorting::bytes_at_most(
                (#[trigger] images@[a])@,
                (#[trigger] images@[b])@,
            ),
        images@.len() == images_among(entries@).len(),
{
    let mut names: Vec<Vec<u8>> = Vec::new();
    for i in 0..entries.len()
        invariant
            name_views(names@) == images_among(entries@.take(i as int)),
    {
        assert(entries@.take(i as int + 1).drop_last() =~= entries@.take(i as int));
        let entry = &entries[i];
        if entry.1 && is_image_name(&entry.0) {
            let ghost before = name_views(names@);
            names.push(copy_name(&entry.0));
            assert(name_views(names@) =~= before.push(entry.0@));
        }
    }
    assert(entries@.take(entries@.len() as int) =~= entries@);
    let by_name = ByName { names };
    let order = sorted_order(&by_name);
    let mut images: Vec<Vec<u8>> = Vec::new();
    let ghost all = name_views(by_name.names@);
    for k in 0..order.len()
        invariant
            all == name_views(by_name.names@),
            sorting::in_order(&by_name, order@, 0, by_name.names@.len() as int),
            name_views(images@) == sorting::arranged(all, order@).take(k as int),
    {
        let ghost before = name_views(images@);
        assert(order@[k as int] < by_name.names@.len());
        images.push(copy_name(&by_name.names[order[k]]));
        assert(name_views(images@) =~= before.push(all[order@[k as int] as int]));
        assert(sorting::arranged(all, order@).take(k as int + 1) =~= before.push(
            all[order@[k as int] as int],
        ));
    }
    proof {
        let placed = sorting::arranged(all, order@);
        assert(placed.take(order@.len() as int) =~= placed);
        sorting::order_lists_each_once(&by_name, order@, by_name.names@.len() as int);
        sorting::arranged_keeps_items(all, order@);
        assert forall|a: int, b: int| 0 <= a <= b < images@.len() implies sorting::bytes_at_most(
            (#[trigger] images@[a])@,
            (#[trigger] images@[b])@,
        ) by {
            assert(name_views(images@)[a] == images@[a]@ && name_views(images@)[b] == images@[b]@);
            if a < b {
                assert(sorting::comes_before(&by_name, order@[a] as int, order@[b] as int));
            } else {
                sorting::bytes_reflexive(images@[a]@);
            }
        }
    }
    images
}

/// Does the name end, after at least one byte, in a dot and the letters of `t`, each
/// small or capital?
pub open spec fn ends_in(name: Seq<u8>, t: Seq<char>) -> bool {
    let at = name.len() - t.len();
    &&& at >= 2
    &&& name[at - 1] == 46
    &&& forall|k: int|
        0 <= k < t.len() ==> #[trigger] name[at + k] == t[k] as int || name[at + k] == t[k] as int
            - 32
}

/// The extensions that a user is told of, one by one.
pub open spec fn told_extensions() -> Seq<Seq<char>> {
    seq!["jpg"@, "jpeg"@, "png"@, "tif"@, "tiff"@, "bmp"@]
}

/// Are the bytes the small letters of the text?
spec fn letters(e: Seq<u8>, t: Seq<char>) -> bool {
    &&& e.len() == t.len()
    &&& forall|k: int| 0 <= k < e.len() ==> 97 <= #[trigger] e[k] <= 122 && e[k] == t[k] as int
}

proof fn extension_matches(name: Seq<u8>, e: Seq<u8>, t: Seq<char>)
    requires
        letters(e, t),
    ensures
        ends_in(name, t) <==> (extension(name) matches Some(x) && lower_bytes(x) == e),
{
    let d = last_dot(name);
    last_dot_found(name);
    let at = name.len() - t.len();
    if ends_in(name, t) {
        assert forall|k: int| at - 1 < k < name.len() implies name[k] != DOT by {
            assert(e[k - at] == t[k - at] as int);
            assert(name[at + (k - at)] == t[k - at] as int || name[at + (k - at)] == t[k - at] as int
                - 32);
        }
        last_dot_is(name, at - 1);
        let x = name.skip(at);
        assert forall|k: int| 0 <= k < e.len() implies lower_bytes(x)[k] == e[k] by {
            assert(x[k] == name[at + k]);
            assert(97 <= e[k] <= 122);
        }
        assert(lower_bytes(x) =~= e);
    }
    if let Some(x) = extension(name) {
        if lower_bytes(x) == e {
            assert(x.len() == e.len());
            assert(at == d + 1);
            assert forall|k: int| 0 <= k < t.len() implies #[trigger] name[at + k] == t[k] as int
                || name[at + k] == t[k] as int - 32 by {
                assert(x[k] == name[at + k]);
                assert(lower_bytes(x)[k] == e[k]);
                assert(97 <= e[k] <= 122);
            }
        }
    }
}

proof fn last_dot_found(name: Seq<u8>)
    ensures
        -1 <= last_dot(name) < name.len(),
        last_dot(name) >= 0 ==> name[last_dot(name)] == DOT,
    decreases name.len(),
{
    if name.len() > 0 && name.last() != DOT {
        last_dot_found(name.drop_last());
    }
}

/// A name is that of an image exactly where it ends, after at least one byte, in a dot
/// and one of the extensions that the user is told of, letters in any case.
pub proof fn told_extensions_are_taken(name: Seq<u8>)
    ensures
        image_name(name) <==> exists|i: int|
            0 <= i < 6 && ends_in(name, #[trigger] told_extensions()[i]),
        image_name(name) <==> ends_in(name, "jpg"@) || ends_in(name, "jpeg"@) || ends_in(
            name,
            "png"@,
        ) || ends_in(name, "tif"@) || ends_in(name, "tiff"@) || ends_in(name, "bmp"@),
        text::joined(told_extensions(), "/"@) == "jpg/jpeg/png/tif/tiff/bmp"@,
{
    reveal_strlit("jpg");
    reveal_strlit("jpeg");
    reveal_strlit("png");
    reveal_strlit("tif");
    reveal_strlit("tiff");
    reveal_strlit("bmp");
    reveal_strlit("/");
    reveal_strlit("jpg/jpeg/png/tif/tiff/bmp");
    let all = image_extensions();
    let told = told_extensions();
    assert(all.len() == 6);
    assert(letters(all[0], "jpg"@));
    assert(letters(all[1], "jpeg"@));
    assert(letters(all[2], "png"@));
    assert(letters(all[3], "tif"@));
    assert(letters(all[4], "tiff"@));
    assert(letters(all[5], "bmp"@));
    extension_matches(name, all[0], "jpg"@);
    extension_matches(name, all[1], "jpeg"@);
    extension_matches(name, all[2], "png"@);
    extension_matches(name, all[3], "tif"@);
    extension_matches(name, all[4], "tiff"@);
    extension_matches(name, all[5], "bmp"@);
    assert(told[0] == "jpg"@ && told[1] == "jpeg"@ && told[2] == "png"@);
    assert(told[3] == "tif"@ && told[4] == "tiff"@ && told[5] == "bmp"@);
    if image_name(name) {
        let e = lower_bytes(extension(name)->0);
        let k = choose|k: int| 0 <= k < all.len() && all[k] == e;
        assert(ends_in(name, told[k]));
    }
    if ends_in(name, "jpg"@) {
        assert(all.contains(all[0]));
    }
    if ends_in(name, "jpeg"@) {
        assert(all.contains(all[1]));
    }
    if ends_in(name, "png"@) {
        assert(all.contains(all[2]));
    }
    if ends_in(name, "tif"@) {
        assert(all.contains(all[3]));
    }
    if ends_in(name, "tiff"@) {
        assert(all.contains(all[4]));
    }
    if ends_in(name, "bmp"@) {
        assert(all.contains(all[5]));
    }
    let t1 = told.take(1);
    let t2 = told.take(2);
    let t3 = told.take(3);
    let t4 = told.take(4);
    let t5 = told.take(5);
    assert(t2.drop_last() =~= t1 && t3.drop_last() =~= t2 && t4.drop_last() =~= t3);
    assert(t5.drop_last() =~= t4 && told.drop_last() =~= t5);
    assert(text::joined(t1, "/"@) == "jpg"@);
    assert(text::joined(t2, "/"@) == "jpg"@ + "/"@ + "jpeg"@);
    assert(text::joined(t3, "/"@) == text::joined(t2, "/"@) + "/"@ + "png"@);
    assert(text::joined(t4, "/"@) == text::joined(t3, "/"@) + "/"@ + "tif"@);
    assert(text::joined(t5, "/"@) == text::joined(t4, "/"@) + "/"@ + "tiff"@);
    assert(text::joined(told, "/"@) =~= "jpg/jpeg/png/tif/tiff/bmp"@);
}

/// A name is listed exactly where an entry has it that is a file with the name of an
/// image.
pub proof fn image_files_are_listed(
    entries: Seq<(Vec<u8>, bool)>,
    images: Seq<Vec<u8>>,
    name: Seq<u8>,
)
    requires
        name_views(images).to_multiset() == images_among(entries).to_multiset(),
    ensures
        name_views(images).contains(name) <==> image_name(name) && exists|i: int|
            0 <= i < entries.len() && (#[trigger] entries[i]).1 && entries[i].0@ == name,
{
    let (a, b) = (name_views(images), images_among(entries));
    broadcast use vstd::seq_lib::group_to_multiset_ensures;

    assert(a.contains(name) <==> a.to_multiset().count(name) > 0);
    assert(b.contains(name) <==> b.to_multiset().count(name) > 0);
    among_are_image_files(entries, name);
}

proof fn among_are_image_files(entries: Seq<(Vec<u8>, bool)>, name: Seq<u8>)
    ensures
        images_among(entries).contains(name) <==> image_name(name) && exists|i: int|
            0 <= i < entries.len() && (#[trigger] entries[i]).1 && entries[i].0@ == name,
    decreases entries.len(),
{
    if entries.len() > 0 {
        let short = entries.drop_last();
        among_are_image_files(short, name);
        let (before, all) = (images_among(short), images_among(entries));
        let n = entries.len() - 1;
        if before.contains(name) {
            let k = choose|k: int| 0 <= k < before.len() && before[k] == name;
            assert(all[k] == name);
            let i = choose|i: int|
                0 <= i < short.len() && (#[trigger] short[i]).1 && short[i].0@ == name;
            assert(entries[i] == short[i]);
        }
        if all.contains(name) && !before.contains(name) {
            let k = choose|k: int| 0 <= k < all.len() && all[k] == name;
            assert(k == before.len()) by {
                if k < before.len() {
                    assert(before[k] == name);
                }
            }
            assert(entries[n].1 && entries[n].0@ == name);
        }
        if image_name(name) && exists|i: int|
            0 <= i < entries.len() && (#[trigger] entries[i]).1 && entries[i].0@ == name {
            let i = choose|i: int|
                0 <= i < entries.len() && (#[trigger] entries[i]).1 && entries[i].0@ == name;
            if i < n {
                assert(short[i] == entries[i]);
            } else {
                assert(all[before.len() as int] == name);
            }
        }
    }
}

} // verus!
