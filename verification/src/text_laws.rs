//! What splitting, trimming and replacing text does, said of texts put together.

use crate::text;
use vstd::prelude::*;

verus! {

/// Whitespace is what Unicode counts as such.
pub proof fn whitespace_is_known(c: char)
    ensures
        text::is_space(c) <==> c == ' ' || c == '\t' || c == '\n' || c == '\u{b}' || c == '\u{c}'
            || c == '\r' || c == '\u{85}' || c == '\u{a0}' || c == '\u{1680}' || c == '\u{2000}'
            || c == '\u{2001}' || c == '\u{2002}' || c == '\u{2003}' || c == '\u{2004}' || c
            == '\u{2005}' || c == '\u{2006}' || c == '\u{2007}' || c == '\u{2008}' || c == '\u{2009}'
            || c == '\u{200a}' || c == '\u{2028}' || c == '\u{2029}' || c == '\u{202f}' || c
            == '\u{205f}' || c == '\u{3000}',
{
}

/// Text with no separator in it is one field, unless it is empty.
pub proof fn unparted_text_is_one_field(s: Seq<char>, wide: bool)
    requires
        forall|k: int| 0 <= k < s.len() ==> !text::is_separator(#[trigger] s[k], wide),
    ensures
        text::fields(s, wide) == if s.len() == 0 {
            Seq::<Seq<char>>::empty()
        } else {
            seq![s]
        },
    decreases s.len(),
{
    if s.len() > 0 {
        let t = s.drop_last();
        assert forall|k: int| 0 <= k < t.len() implies !text::is_separator(
            #[trigger] t[k],
            wide,
        ) by {
            assert(t[k] == s[k]);
        }
        unparted_text_is_one_field(t, wide);
        if s.len() == 1 {
            assert(text::fields(s, wide) =~= seq![s]) by {
                assert(seq![s.last()] =~= s);
            }
        } else {
            assert(!text::is_separator(s[s.len() - 2], wide));
            assert(t.push(s.last()) =~= s);
            assert(text::fields(s, wide) =~= seq![s]);
        }
    }
}

/// A separator parts the fields before it from those behind it: whitespace, and a
/// comma or a semicolon where these part fields too.
pub proof fn separators_part_fields(a: Seq<char>, c: char, b: Seq<char>, wide: bool)
    requires
        text::is_space(c) || (wide && (c == ',' || c == ';')),
    ensures
        text::fields(a.push(c) + b, wide) == text::fields(a, wide) + text::fields(b, wide),
    decreases b.len(),
{
    let s = a.push(c) + b;
    if b.len() == 0 {
        assert(s =~= a.push(c));
        assert(s.drop_last() =~= a);
        assert(text::fields(a, wide) + text::fields(b, wide) =~= text::fields(a, wide));
    } else {
        let t = b.drop_last();
        assert(s.drop_last() =~= a.push(c) + t);
        separators_part_fields(a, c, t, wide);
        let (fa, ft) = (text::fields(a, wide), text::fields(t, wide));
        assert(s.last() == b.last());
        if b.len() == 1 {
            assert(s[s.len() - 2] == c);
            assert(ft =~= Seq::<Seq<char>>::empty());
            assert(t =~= Seq::<char>::empty());
            assert(text::fields(s, wide) =~= fa + text::fields(b, wide));
        } else {
            assert(s[s.len() - 2] == b[b.len() - 2]);
            if !text::is_separator(b.last(), wide) && !text::is_separator(b[b.len() - 2], wide) {
                last_field_is_open(t, wide);
                assert((fa + ft).last() == ft.last());
                assert((fa + ft).drop_last() =~= fa + ft.drop_last());
            }
            assert(text::fields(s, wide) =~= fa + text::fields(b, wide));
        }
    }
}

proof fn last_field_is_open(t: Seq<char>, wide: bool)
    requires
        t.len() > 0,
        !text::is_separator(t.last(), wide),
    ensures
        text::fields(t, wide).len() > 0,
{
}

/// Rows are cut behind each end mark, which belongs to none; what follows the last
/// mark is a row unless it is empty.
pub proof fn rows_are_cut_at_their_end<T>(a: Seq<T>, end: T, b: Seq<T>)
    requires
        !a.contains(end),
    ensures
        text::rows(a.push(end) + b, end) == seq![a] + text::rows(b, end),
        a.len() > 0 ==> text::rows(a, end) == seq![a],
        text::rows(Seq::<T>::empty(), end) == Seq::<Seq<T>>::empty(),
    decreases b.len(),
{
    uncut_is_one_row(a, end);
    let s = a.push(end) + b;
    if b.len() == 0 {
        assert(s =~= a.push(end));
        assert(s.drop_last() =~= a);
        if a.len() == 0 {
            assert(text::rows(a, end) =~= Seq::<Seq<T>>::empty());
            assert(text::rows(s, end) =~= seq![a]) by {
                assert(a =~= Seq::<T>::empty());
            }
        } else {
            assert(s[s.len() - 2] == a.last());
            assert(a.contains(a.last()));
        }
        assert(seq![a] + text::rows(b, end) =~= seq![a]);
    } else {
        let t = b.drop_last();
        rows_are_cut_at_their_end(a, end, t);
        assert(s.drop_last() =~= a.push(end) + t);
        assert(s.last() == b.last());
        let rt = text::rows(t, end);
        if b.len() == 1 {
            assert(s[s.len() - 2] == end);
            assert(t =~= Seq::<T>::empty());
        } else {
            assert(s[s.len() - 2] == b[b.len() - 2]);
            open_row(t, end);
            assert((seq![a] + rt).last() == rt.last());
            assert((seq![a] + rt).drop_last() =~= seq![a] + rt.drop_last());
        }
        assert(text::rows(s, end) =~= seq![a] + text::rows(b, end));
    }
}

proof fn open_row<T>(t: Seq<T>, end: T)
    requires
        t.len() > 0,
    ensures
        text::rows(t, end).len() > 0,
    decreases t.len(),
{
    if t.len() > 1 {
        open_row(t.drop_last(), end);
    }
}

proof fn uncut_is_one_row<T>(a: Seq<T>, end: T)
    requires
        !a.contains(end),
    ensures
        a.len() > 0 ==> text::rows(a, end) == seq![a],
    decreases a.len(),
{
    if a.len() > 0 {
        let t = a.drop_last();
        assert(!t.contains(end)) by {
            if t.contains(end) {
                let k = choose|k: int| 0 <= k < t.len() && t[k] == end;
                assert(a[k] == end);
            }
        }
        assert(a.contains(a.last()));
        uncut_is_one_row(t, end);
        if a.len() == 1 {
            assert(text::rows(t, end) =~= Seq::<Seq<T>>::empty());
            assert(seq![a.last()] =~= a);
            assert(text::rows(a, end) =~= seq![a]);
        } else {
            assert(a.contains(a[a.len() - 2]));
            assert(t.push(a.last()) =~= a);
            assert(text::rows(a, end) =~= seq![a]);
        }
    }
}

/// Are all of these characters whitespace?
pub open spec fn blank(s: Seq<char>) -> bool {
    forall|k: int| 0 <= k < s.len() ==> text::is_space(#[trigger] s[k])
}

/// Trimming takes away the whitespace round a text and nothing of the text.
pub proof fn trimming_takes_whitespace(a: Seq<char>, s: Seq<char>, b: Seq<char>)
    requires
        blank(a),
        blank(b),
        s.len() > 0 ==> !text::is_space(s[0]) && !text::is_space(s.last()),
    ensures
        text::trimmed(a + s + b) == s,
{
    start_is_trimmed(a, s + b);
    assert(a + s + b =~= a + (s + b));
    if s.len() > 0 {
        assert((s + b)[0] == s[0]);
        end_is_trimmed(s, b);
    } else {
        assert(s + b =~= b);
        start_is_trimmed(b, Seq::empty());
        assert(b + Seq::<char>::empty() =~= b);
        start_of_join(a, b);
        assert(text::trim_end(Seq::<char>::empty()) == Seq::<char>::empty());
        assert(s =~= Seq::<char>::empty());
    }
}

proof fn start_of_join(a: Seq<char>, b: Seq<char>)
    requires
        blank(a),
        blank(b),
    ensures
        text::trim_start(a + b) == Seq::<char>::empty(),
{
    assert(blank(a + b)) by {
        assert forall|k: int| 0 <= k < (a + b).len() implies text::is_space(
            #[trigger] (a + b)[k],
        ) by {
            if k < a.len() {
                assert((a + b)[k] == a[k]);
            } else {
                assert((a + b)[k] == b[k - a.len()]);
            }
        }
    }
    start_is_trimmed(a + b, Seq::empty());
    assert(a + b + Seq::<char>::empty() =~= a + b);
}

proof fn start_is_trimmed(a: Seq<char>, s: Seq<char>)
    requires
        blank(a),
    ensures
        s.len() == 0 || !text::is_space(s[0]) ==> text::trim_start(a + s) == s,
    decreases a.len(),
{
    if a.len() == 0 {
        assert(a + s =~= s);
    } else {
        let rest = a.skip(1);
        assert forall|k: int| 0 <= k < rest.len() implies text::is_space(#[trigger] rest[k]) by {
            assert(rest[k] == a[k + 1]);
        }
        start_is_trimmed(rest, s);
        assert((a + s).skip(1) =~= rest + s);
        assert((a + s)[0] == a[0]);
    }
}

proof fn end_is_trimmed(s: Seq<char>, b: Seq<char>)
    requires
        blank(b),
        s.len() > 0,
        !text::is_space(s.last()),
    ensures
        text::trim_end(s + b) == s,
    decreases b.len(),
{
    if b.len() == 0 {
        assert(s + b =~= s);
    } else {
        let t = b.drop_last();
        assert forall|k: int| 0 <= k < t.len() implies text::is_space(#[trigger] t[k]) by {
            assert(t[k] == b[k]);
        }
        end_is_trimmed(s, t);
        assert((s + b).drop_last() =~= s + t);
        assert((s + b).last() == b.last());
        assert(text::is_space(b[b.len() - 1]));
    }
}

/// A to Z become a to z, and nothing else changes.
pub proof fn capitals_become_small(s: Seq<char>, k: int)
    requires
        0 <= k < s.len(),
    ensures
        text::lower(s).len() == s.len(),
        'A' <= s[k] <= 'Z' ==> text::lower(s)[k] as int == s[k] as int + ('a' as int - 'A' as int),
        !('A' <= s[k] <= 'Z') ==> text::lower(s)[k] == s[k],
{
}

/// What comes before the first of a character holds none of it, and what comes after
/// the last of it neither.
pub proof fn texts_are_cut_at_characters(a: Seq<char>, c: char, b: Seq<char>)
    ensures
        !a.contains(c) ==> text::before_first(a.push(c) + b, c) == Some(a),
        !b.contains(c) ==> text::after_last(a.push(c) + b, c) == Some(b),
        !a.contains(c) ==> text::before_first(a, c) is None && text::after_last(a, c) is None,
{
    let s = a.push(c) + b;
    if !a.contains(c) {
        assert forall|k: int| 0 <= k < a.len() implies a[k] != c by {}
        first_at(s, c, a.len() as int);
        first_at(a, c, a.len() as int);
        assert(s.take(a.len() as int) =~= a);
        last_at(a, c, -1);
    }
    if !b.contains(c) {
        assert forall|k: int| a.len() < k < s.len() implies s[k] != c by {
            assert(s[k] == b[k - a.len() - 1]);
        }
        last_at(s, c, a.len() as int);
        assert(s.skip(a.len() as int + 1) =~= b);
    }
}

proof fn first_at(s: Seq<char>, c: char, i: int)
    requires
        0 <= i <= s.len(),
        forall|k: int| 0 <= k < i ==> s[k] != c,
        i < s.len() ==> s[i] == c,
    ensures
        text::find_first(s, c) == i,
    decreases i,
{
    if i > 0 {
        first_at(s.skip(1), c, i - 1);
    }
}

proof fn last_at(s: Seq<char>, c: char, i: int)
    requires
        -1 <= i < s.len(),
        forall|k: int| i < k < s.len() ==> s[k] != c,
        i >= 0 ==> s[i] == c,
    ensures
        text::find_last(s, c) == i,
    decreases s.len(),
{
    if s.len() > 0 && i < s.len() - 1 {
        last_at(s.drop_last(), c, i);
    }
}

/// The first occurrence of a part is replaced, what comes before it stays, and the
/// same holds of what follows; without an occurrence nothing changes.
pub proof fn occurrences_are_replaced(s: Seq<char>, part: Seq<char>, with: Seq<char>, i: int)
    requires
        part.len() > 0,
        0 <= i <= s.len(),
        forall|k: int| 0 <= k < i ==> !#[trigger] text::part_at(s, part, k),
        text::part_at(s, part, i) || i == s.len(),
    ensures
        text::part_at(s, part, i) ==> text::replaced(s, part, with) == s.take(i) + with
            + text::replaced(s.skip(i + part.len()), part, with),
        !text::part_at(s, part, i) ==> text::replaced(s, part, with) == s,
    decreases s.len(),
{
    if s.len() < part.len() {
    } else if part.is_prefix_of(s) {
        assert(text::part_at(s, part, 0)) by {
            assert(s.subrange(0, part.len() as int) =~= part);
        }
        assert(i == 0);
        assert(s.take(0) + with =~= with);
        assert(i + part.len() == part.len());
    } else {
        let rest = s.skip(1);
        if i == 0 {
            assert(s.subrange(0, part.len() as int) == part);
            assert forall|k: int| 0 <= k < part.len() implies part[k] == s[k] by {
                assert(s.subrange(0, part.len() as int)[k] == s[k]);
            }
            assert(part.is_prefix_of(s));
        }
        assert forall|k: int| 0 <= k < i - 1 implies !#[trigger] text::part_at(rest, part, k) by {
            if text::part_at(rest, part, k) {
                assert(s.subrange(k + 1, k + 1 + part.len()) =~= rest.subrange(k, k + part.len()));
                assert(text::part_at(s, part, k + 1));
            }
        }
        if text::part_at(s, part, i) {
            assert(rest.subrange(i - 1, i - 1 + part.len()) =~= s.subrange(i, i + part.len()));
            assert(text::part_at(rest, part, i - 1));
        }
        occurrences_are_replaced(rest, part, with, i - 1);
        if text::part_at(s, part, i) {
            let tail = text::replaced(s.skip(i + part.len()), part, with);
            assert(rest.skip(i - 1 + part.len()) =~= s.skip(i + part.len()));
            assert(seq![s[0]] + (rest.take(i - 1) + with + tail) =~= s.take(i) + with + tail);
        } else {
            assert(!text::part_at(rest, part, i - 1));
            assert(seq![s[0]] + rest =~= s);
        }
    }
}

/// What comes before a part ends at the first place where the part stands, and is
/// the whole text where it stands nowhere.
pub proof fn texts_are_cut_at_parts(s: Seq<char>, part: Seq<char>, i: int)
    requires
        0 <= i <= s.len(),
        forall|k: int| 0 <= k < i ==> !#[trigger] text::part_at(s, part, k),
        i < s.len() ==> text::part_at(s, part, i),
    ensures
        text::before_part(s, part) == s.take(i),
{
    part_is_found(s, part, i);
}

proof fn part_is_found(s: Seq<char>, part: Seq<char>, i: int)
    requires
        0 <= i <= s.len(),
        forall|k: int| 0 <= k < i ==> !#[trigger] text::part_at(s, part, k),
        i < s.len() ==> text::part_at(s, part, i),
    ensures
        text::find_part(s, part) == i,
    decreases i,
{
    if s.len() > 0 {
        if i == 0 {
            assert(s.subrange(0, part.len() as int) == part);
            assert(part.is_prefix_of(s));
        } else {
            assert(!text::part_at(s, part, 0));
            assert(!part.is_prefix_of(s)) by {
                if part.is_prefix_of(s) {
                    assert(s.subrange(0, part.len() as int) =~= part);
                }
            }
            let rest = s.skip(1);
            assert forall|k: int| 0 <= k < i - 1 implies !#[trigger] text::part_at(
                rest,
                part,
                k,
            ) by {
                assert(!text::part_at(s, part, k + 1));
                if k + part.len() <= rest.len() {
                    assert(rest.subrange(k, k + part.len()) =~= s.subrange(
                        k + 1,
                        k + 1 + part.len(),
                    ));
                }
            }
            if i < s.len() {
                assert(rest.subrange(i - 1, i - 1 + part.len()) =~= s.subrange(i, i + part.len()));
                assert(text::part_at(rest, part, i - 1));
            }
            part_is_found(rest, part, i - 1);
        }
    }
}

/// A text holds a part if and only if the part stands between some text before it
/// and some text behind it.
pub proof fn parts_stand_within(s: Seq<char>, part: Seq<char>)
    ensures
        text::contains(s, part) <==> exists|a: Seq<char>, b: Seq<char>| s == #[trigger] (a + part + b),
{
    if text::contains(s, part) {
        let i = choose|i: int| #[trigger] text::part_at(s, part, i);
        let (a, b) = (s.take(i), s.skip(i + part.len()));
        assert(s =~= a + part + b) by {
            assert forall|k: int| 0 <= k < part.len() implies part[k] == s[i + k] by {
                assert(s.subrange(i, i + part.len())[k] == s[i + k]);
            }
        }
    }
    assert forall|a: Seq<char>, b: Seq<char>| s == #[trigger] (a + part + b) implies text::contains(
        s,
        part,
    ) by {
        let i = a.len() as int;
        assert(s.subrange(i, i + part.len()) =~= part);
        assert(text::part_at(s, part, i));
    }
}

/// Digits are read in tens, the last one as ones; and only the ten digits are
/// digits.
pub proof fn digits_count_in_tens(s: Seq<char>, c: char)
    ensures
        text::is_digit(c) <==> c == '0' || c == '1' || c == '2' || c == '3' || c == '4' || c == '5'
            || c == '6' || c == '7' || c == '8' || c == '9',
        text::is_digit(c) ==> text::digits_value(s.push(c)) == 10 * text::digits_value(s) + (
        c as int - '0' as int),
        text::digits_value(Seq::<char>::empty()) == 0,
{
    assert(s.push(c).drop_last() =~= s);
}

/// A number is read from digits alone, with or without a plus sign before them,
/// up to the largest that is allowed.
pub proof fn numbers_are_read_from_digits(s: Seq<char>, max: int)
    requires
        s.len() > 0,
        forall|k: int| 0 <= k < s.len() ==> text::is_digit(#[trigger] s[k]),
    ensures
        text::digits_value(s) <= max ==> text::parse_number(s, max) == Some(text::digits_value(s))
            && text::parse_number(seq!['+'] + s, max) == Some(text::digits_value(s)),
        text::digits_value(s) > max ==> text::parse_number(s, max) is None && text::parse_number(
            seq!['+'] + s,
            max,
        ) is None,
{
    assert(text::is_digit(s[0]));
    assert((seq!['+'] + s).skip(1) =~= s);
    assert((seq!['+'] + s)[0] == '+');
}

/// No number is read from a text that holds anything but digits behind its first
/// character, or that begins with anything but a digit or a plus sign.
pub proof fn other_texts_are_no_numbers(s: Seq<char>, k: int, max: int)
    requires
        0 <= k < s.len(),
        !text::is_digit(s[k]),
        k == 0 ==> s[0] != '+' || s.len() == 1,
    ensures
        text::parse_number(s, max) is None,
        text::parse_number(Seq::empty(), max) is None,
{
    if s[0] == '+' {
        if s.len() > 1 {
            assert(s.skip(1)[k - 1] == s[k]);
        }
    }
}

/// Texts are joined with the separator between each and the next.
pub proof fn joins_put_separators_between(
    a: Seq<Seq<char>>,
    b: Seq<Seq<char>>,
    sep: Seq<char>,
)
    requires
        a.len() > 0,
        b.len() > 0,
    ensures
        text::joined(a + b, sep) == text::joined(a, sep) + sep + text::joined(b, sep),
        a.len() == 1 ==> text::joined(a, sep) == a[0],
    decreases b.len(),
{
    let all = a + b;
    if b.len() == 1 {
        assert(all.drop_last() =~= a);
    } else {
        let t = b.drop_last();
        assert(all.drop_last() =~= a + t);
        joins_put_separators_between(a, t, sep);
        assert(text::joined(a, sep) + sep + text::joined(t, sep) + sep + b.last() =~= text::joined(
            a,
            sep,
        ) + sep + (text::joined(t, sep) + sep + b.last()));
    }
}

/// The last of the hexadecimal digits is the remainder by sixteen, and those before
/// it are the digits of the quotient.
pub proof fn hex_counts_in_sixteens(n: nat, width: nat)
    requires
        width > 0,
    ensures
        text::hex(n, width).len() == width,
        text::hex(n, width).last() == "0123456789abcdef"@[n as int % 16],
        text::hex(n, width).drop_last() == text::hex(n / 16, (width - 1) as nat),
    decreases width,
{
    reveal_strlit("0123456789abcdef");
    let rest = text::hex(n / 16, (width - 1) as nat);
    if width > 1 {
        hex_counts_in_sixteens(n / 16, (width - 1) as nat);
    }
    assert(rest.push(text::hex_char(n % 16)).drop_last() =~= rest);
}

/// A number is written without leading zeros.
pub proof fn numbers_have_no_leading_zeros(n: nat)
    ensures
        text::decimal(n).len() > 0,
        n > 0 ==> text::decimal(n)[0] != '0',
        n == 0 ==> text::decimal(n) == seq!['0'],
        forall|k: int|
            0 <= k < text::decimal(n).len() ==> text::is_digit(#[trigger] text::decimal(n)[k]),
    decreases n,
{
    if n >= 10 {
        numbers_have_no_leading_zeros(n / 10);
        let rest = text::decimal(n / 10);
        assert(text::decimal(n) == rest.push(text::digit_char(n % 10)));
        assert forall|k: int| 0 <= k < text::decimal(n).len() implies text::is_digit(
            #[trigger] text::decimal(n)[k],
        ) by {
            if k < rest.len() {
                assert(text::decimal(n)[k] == rest[k]);
            }
        }
    }
}

/// Every copy of the character at the end is taken away, and nothing else.
pub proof fn ends_are_taken_away(s: Seq<char>, c: char, n: nat)
    requires
        s.len() > 0 ==> s.last() != c,
    ensures
        text::trim_end_of(s + Seq::new(n, |k: int| c), c) == s,
    decreases n,
{
    let all = s + Seq::new(n, |k: int| c);
    if n == 0 {
        assert(all =~= s);
    } else {
        assert(all.last() == c);
        assert(all.drop_last() =~= s + Seq::new((n - 1) as nat, |k: int| c));
        ends_are_taken_away(s, c, (n - 1) as nat);
    }
}

/// Texts are seen as their own characters, each in its place.
pub proof fn texts_are_seen_as_they_are(texts: Seq<String>, k: int)
    requires
        0 <= k < texts.len(),
    ensures
        text::views(texts).len() == texts.len(),
        text::views(texts)[k] == texts[k]@,
        text::view_of(Some(texts[k])) == Some(texts[k]@),
        text::view_of(None) is None,
{
}

} // verus!
