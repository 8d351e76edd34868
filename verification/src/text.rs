//! Text as sequences of characters: whitespace, words, lines, prefixes,
//! numbers and replacement.

use vstd::prelude::*;

verus! {

/// `String::push` appends one character.
pub assume_specification[ String::push ](string: &mut String, ch: char)
    ensures
        final(string)@ == old(string)@.push(ch),
;

/// `String::from_utf8` succeeds exactly on well-formed UTF-8, and the text
/// then holds the characters that the bytes encode.
#[verifier::external_body]
pub(crate) fn utf8_text(bytes: Vec<u8>) -> (text: Option<String>)
    ensures
        text is Some <==> vstd::utf8::valid_utf8(bytes@),
        text matches Some(s) ==> s@ == vstd::utf8::decode_utf8(bytes@),
{
    String::from_utf8(bytes).ok()
}

/// The characters of several texts.
pub open spec fn views(texts: Seq<String>) -> Seq<Seq<char>> {
    texts.map_values(|t: String| t@)
}

/// The characters of an optional text.
pub open spec fn view_of(text: Option<String>) -> Option<Seq<char>> {
    match text {
        Some(t) => Some(t@),
        None => None,
    }
}

/// The characters of `text`.
pub fn to_chars(text: &str) -> (chars: Vec<char>)
    ensures
        chars@ == text@,
{
    let mut chars: Vec<char> = Vec::new();
    for c in it: text.chars()
        invariant
            chars@ == it.seq().take(it.index()),
            it.seq() == text@,
    {
        chars.push(c);
    }
    chars
}

/// The text made of the characters from `from` up to `to`.
pub fn slice_text(chars: &Vec<char>, from: usize, to: usize) -> (text: String)
    requires
        from <= to <= chars@.len(),
    ensures
        text@ == chars@.subrange(from as int, to as int),
{
    let mut text = String::new();
    for i in from..to
        invariant
            from <= i <= to <= chars@.len(),
            text@ == chars@.subrange(from as int, i as int),
    {
        text.push(chars[i]);
    }
    text
}

/// Are the two texts the same?
pub fn same_text(a: &str, b: &str) -> (same: bool)
    ensures
        same == (a@ == b@),
{
    a.to_owned() == b.to_owned()
}

/// Does `text` begin with `prefix`?
pub fn has_prefix(text: &str, prefix: &str) -> (b: bool)
    ensures
        b == prefix@.is_prefix_of(text@),
{
    let t = to_chars(text);
    let p = to_chars(prefix);
    occurs_at(&t, &p, 0)
}

/// Does `part` stand in `s` at `i`?
pub open spec fn part_at(s: Seq<char>, part: Seq<char>, i: int) -> bool {
    0 <= i && i + part.len() <= s.len() && s.subrange(i, i + part.len()) == part
}

fn occurs_at(t: &Vec<char>, p: &Vec<char>, at: usize) -> (b: bool)
    requires
        at <= t@.len(),
    ensures
        b == part_at(t@, p@, at as int),
        at == 0 ==> b == p@.is_prefix_of(t@),
{
    if p.len() > t.len() - at {
        return false;
    }
    let n: usize = t.len();
    let mut i: usize = 0;
    while i < p.len()
        invariant
            i <= p@.len(),
            n == t@.len(),
            at + p@.len() <= n,
            forall|k: int| 0 <= k < i ==> t@[at + k] == p@[k],
        decreases p@.len() - i,
    {
        if t[at + i] != p[i] {
            assert(t@.subrange(at as int, at + p@.len())[i as int] != p@[i as int]);
            return false;
        }
        i += 1;
    }
    assert(t@.subrange(at as int, at + p@.len()) =~= p@);
    true
}

/// Does `part` stand somewhere in `s`?
pub open spec fn contains(s: Seq<char>, part: Seq<char>) -> bool {
    exists|i: int| #[trigger] part_at(s, part, i)
}

/// Does `text` hold `part`?
pub fn has_part(text: &str, part: &str) -> (b: bool)
    ensures
        b == contains(text@, part@),
{
    let t = to_chars(text);
    let p = to_chars(part);
    let mut at: usize = 0;
    let n: usize = t.len();
    loop
        invariant
            at <= n,
            n == t@.len(),
            t@ == text@,
            p@ == part@,
            forall|k: int| 0 <= k < at ==> !part_at(t@, p@, k),
        decreases n - at,
    {
        if occurs_at(&t, &p, at) {
            return true;
        }
        if at == n {
            return false;
        }
        at += 1;
    }
}

/// Does `text` end with `suffix`?
pub fn has_suffix(text: &str, suffix: &str) -> (b: bool)
    ensures
        b == suffix@.is_suffix_of(text@),
{
    let t = to_chars(text);
    let p = to_chars(suffix);
    if p.len() > t.len() {
        return false;
    }
    let at: usize = t.len() - p.len();
    assert(t@.subrange(at as int, at + p@.len()) =~= t@.subrange(
        t@.len() - p@.len(),
        t@.len() as int,
    ));
    occurs_at(&t, &p, at)
}

/// Where `part` first stands in `s`; the length of `s` if it does not.
pub open spec fn find_part(s: Seq<char>, part: Seq<char>) -> int
    decreases s.len(),
{
    if s.len() == 0 || part.is_prefix_of(s) {
        0
    } else {
        1 + find_part(s.skip(1), part)
    }
}

/// What stands before the first `part`, all of it if there is none.
pub open spec fn before_part(s: Seq<char>, part: Seq<char>) -> Seq<char> {
    s.take(find_part(s, part))
}

proof fn find_part_is(s: Seq<char>, part: Seq<char>, i: int)
    requires
        0 <= i <= s.len(),
        forall|k: int| 0 <= k < i ==> !part_at(s, part, k),
        i < s.len() ==> part_at(s, part, i),
    ensures
        find_part(s, part) == i,
    decreases i,
{
    if s.len() > 0 {
        assert(s.subrange(0, part.len() as int) == part || !part.is_prefix_of(s));
        if i == 0 {
            assert(part.is_prefix_of(s));
        } else {
            assert(!part_at(s, part, 0));
            let t = s.skip(1);
            assert forall|k: int| 0 <= k < i - 1 implies !part_at(t, part, k) by {
                assert(!part_at(s, part, k + 1));
                if k + part.len() <= t.len() {
                    assert(t.subrange(k, k + part.len()) =~= s.subrange(
                        k + 1,
                        k + 1 + part.len(),
                    ));
                }
            }
            if i < s.len() {
                assert(t.subrange(i - 1, i - 1 + part.len()) =~= s.subrange(i, i + part.len()));
            }
            find_part_is(t, part, i - 1);
        }
    }
}

/// What stands in `text` before the first `part`, all of it if there is none.
pub fn text_before_part(text: &str, part: &str) -> (t: String)
    ensures
        t@ == before_part(text@, part@),
{
    let c = to_chars(text);
    let p = to_chars(part);
    let n: usize = c.len();
    let mut i: usize = 0;
    while i < n && !occurs_at(&c, &p, i)
        invariant
            i <= n,
            n == c@.len(),
            forall|k: int| 0 <= k < i ==> !part_at(c@, p@, k),
        decreases n - i,
    {
        i += 1;
    }
    proof {
        find_part_is(c@, p@, i as int);
        assert(c@.subrange(0, i as int) =~= c@.take(i as int));
    }
    slice_text(&c, 0, i)
}

/// Is the character whitespace, as Unicode counts it?
pub open spec fn is_space(c: char) -> bool {
    let n = c as int;
    ||| 9 <= n <= 13
    ||| n == 32
    ||| n == 0x85
    ||| n == 0xA0
    ||| n == 0x1680
    ||| 0x2000 <= n <= 0x200A
    ||| n == 0x2028
    ||| n == 0x2029
    ||| n == 0x202F
    ||| n == 0x205F
    ||| n == 0x3000
}

fn space(c: char) -> (b: bool)
    ensures
        b == is_space(c),
{
    let n: u32 = c as u32;
    (9 <= n && n <= 13) || n == 32 || n == 0x85 || n == 0xA0 || n == 0x1680 || (0x2000 <= n && n
        <= 0x200A) || n == 0x2028 || n == 0x2029 || n == 0x202F || n == 0x205F || n == 0x3000
}

/// Without leading whitespace.
pub open spec fn trim_start(s: Seq<char>) -> Seq<char>
    decreases s.len(),
{
    if s.len() == 0 || !is_space(s[0]) {
        s
    } else {
        trim_start(s.skip(1))
    }
}

/// Without trailing whitespace.
pub open spec fn trim_end(s: Seq<char>) -> Seq<char>
    decreases s.len(),
{
    if s.len() == 0 || !is_space(s.last()) {
        s
    } else {
        trim_end(s.drop_last())
    }
}

/// Without whitespace at either end.
pub open spec fn trimmed(s: Seq<char>) -> Seq<char> {
    trim_end(trim_start(s))
}

proof fn trim_start_skips(s: Seq<char>, i: int)
    requires
        0 <= i <= s.len(),
        forall|k: int| 0 <= k < i ==> is_space(s[k]),
        i < s.len() ==> !is_space(s[i]),
    ensures
        trim_start(s) == s.skip(i),
    decreases i,
{
    if i == 0 {
        assert(s.skip(0) =~= s);
    } else {
        let t = s.skip(1);
        trim_start_skips(t, i - 1);
        assert(t.skip(i - 1) =~= s.skip(i));
    }
}

proof fn trim_end_takes(s: Seq<char>, i: int)
    requires
        0 <= i <= s.len(),
        forall|k: int| i <= k < s.len() ==> is_space(s[k]),
        i > 0 ==> !is_space(s[i - 1]),
    ensures
        trim_end(s) == s.take(i),
    decreases s.len(),
{
    if i == s.len() {
        assert(s.take(i) =~= s);
    } else {
        let t = s.drop_last();
        trim_end_takes(t, i);
        assert(t.take(i) =~= s.take(i));
    }
}

/// `text` without whitespace at either end.
pub fn trim(text: &str) -> (t: String)
    ensures
        t@ == trimmed(text@),
{
    let c = to_chars(text);
    let n: usize = c.len();
    let mut i: usize = 0;
    while i < n && space(c[i])
        invariant
            i <= n,
            n == c@.len(),
            forall|k: int| 0 <= k < i ==> is_space(c@[k]),
        decreases n - i,
    {
        i += 1;
    }
    proof {
        trim_start_skips(c@, i as int);
    }
    let ghost rest = c@.skip(i as int);
    let mut j: usize = n;
    while j > i && space(c[j - 1])
        invariant
            i <= j <= n,
            n == c@.len(),
            forall|k: int| j <= k < n ==> is_space(c@[k]),
        decreases j,
    {
        j -= 1;
    }
    proof {
        trim_end_takes(rest, j - i);
        assert(rest.take(j - i) =~= c@.subrange(i as int, j as int));
    }
    slice_text(&c, i, j)
}

/// The first character of `text` that is not whitespace.
pub fn first_visible(text: &str) -> (c: Option<char>)
    ensures
        match c {
            Some(x) => trim_start(text@).len() > 0 && trim_start(text@)[0] == x,
            None => trim_start(text@).len() == 0,
        },
{
    let chars = to_chars(text);
    let n: usize = chars.len();
    let mut i: usize = 0;
    while i < n && space(chars[i])
        invariant
            i <= n,
            n == chars@.len(),
            forall|k: int| 0 <= k < i ==> is_space(chars@[k]),
        decreases n - i,
    {
        i += 1;
    }
    proof {
        trim_start_skips(chars@, i as int);
    }
    if i < n {
        Some(chars[i])
    } else {
        None
    }
}

/// Without any `c` at the end.
pub open spec fn trim_end_of(s: Seq<char>, c: char) -> Seq<char>
    decreases s.len(),
{
    if s.len() == 0 || s.last() != c {
        s
    } else {
        trim_end_of(s.drop_last(), c)
    }
}

/// `text` without any `c` at the end.
pub fn trim_end_char(text: &str, c: char) -> (t: String)
    ensures
        t@ == trim_end_of(text@, c),
{
    let chars = to_chars(text);
    let n: usize = chars.len();
    let mut j: usize = n;
    assert(chars@.take(n as int) =~= chars@);
    while j > 0 && chars[j - 1] == c
        invariant
            j <= n,
            n == chars@.len(),
            trim_end_of(chars@, c) == trim_end_of(chars@.take(j as int), c),
        decreases j,
    {
        assert(chars@.take(j as int).drop_last() =~= chars@.take(j - 1));
        j -= 1;
    }
    assert(chars@.subrange(0, j as int) =~= chars@.take(j as int));
    slice_text(&chars, 0, j)
}

/// Does the character part two fields: whitespace, or also a comma or a
/// semicolon where `wide` holds?
pub open spec fn is_separator(c: char, wide: bool) -> bool {
    is_space(c) || (wide && (c == ',' || c == ';'))
}

/// The runs of characters between separators, in order.
pub open spec fn fields(s: Seq<char>, wide: bool) -> Seq<Seq<char>>
    decreases s.len(),
{
    if s.len() == 0 {
        Seq::empty()
    } else {
        let before = fields(s.drop_last(), wide);
        if is_separator(s.last(), wide) {
            before
        } else if s.len() == 1 || is_separator(s[s.len() - 2], wide) {
            before.push(seq![s.last()])
        } else {
            before.drop_last().push(before.last().push(s.last()))
        }
    }
}

/// The words of a text: its runs of characters between whitespace.
pub open spec fn words(s: Seq<char>) -> Seq<Seq<char>> {
    fields(s, false)
}

/// The fields of `text`, in order.
pub fn split_fields(text: &str, wide: bool) -> (out: Vec<String>)
    ensures
        views(out@) == fields(text@, wide),
{
    let c = to_chars(text);
    let n: usize = c.len();
    let mut out: Vec<String> = Vec::new();
    let mut current = String::new();
    let mut within = false;
    for i in 0..n
        invariant
            n == c@.len(),
            c@ == text@,
            i == 0 ==> !within,
            i > 0 ==> within == !is_separator(c@[i - 1], wide),
            within ==> views(out@).push(current@) == fields(c@.take(i as int), wide),
            !within ==> views(out@) == fields(c@.take(i as int), wide) && current@.len() == 0,
    {
        let ghost s = c@.take(i as int + 1);
        assert(s.drop_last() =~= c@.take(i as int));
        let x = c[i];
        let part = space(x) || (wide && (x == ',' || x == ';'));
        if part {
            if within {
                let ghost before = views(out@);
                out.push(current);
                assert(views(out@) =~= before.push(current@));
                current = String::new();
                within = false;
            }
        } else {
            let ghost before = current@;
            current.push(x);
            proof {
                if !within {
                    assert(current@ =~= seq![x]);
                } else {
                    let f = fields(c@.take(i as int), wide);
                    assert(f.drop_last() =~= views(out@));
                    assert(f.last() == before);
                }
            }
            within = true;
        }
    }
    assert(c@.take(n as int) =~= c@);
    if within {
        let ghost before = views(out@);
        out.push(current);
        assert(views(out@) =~= before.push(current@));
    }
    out
}

/// The words of `text`, in order.
pub fn split_words(text: &str) -> (out: Vec<String>)
    ensures
        views(out@) == words(text@),
{
    split_fields(text, false)
}

/// The pieces of `s` that end with `end`, without it; what follows the last
/// `end` is a piece too unless it is empty.
pub open spec fn rows<T>(s: Seq<T>, end: T) -> Seq<Seq<T>>
    decreases s.len(),
{
    if s.len() == 0 {
        Seq::empty()
    } else {
        let before = rows(s.drop_last(), end);
        if s.len() == 1 || s[s.len() - 2] == end {
            if s.last() == end {
                before.push(Seq::empty())
            } else {
                before.push(seq![s.last()])
            }
        } else if s.last() == end {
            before
        } else {
            before.drop_last().push(before.last().push(s.last()))
        }
    }
}

/// The lines of a text.
pub open spec fn lines(s: Seq<char>) -> Seq<Seq<char>> {
    rows(s, '\n')
}

/// The lines of `text`, in order.
pub fn split_lines(text: &str) -> (out: Vec<String>)
    ensures
        views(out@) == lines(text@),
{
    let c = to_chars(text);
    let n: usize = c.len();
    let mut out: Vec<String> = Vec::new();
    let mut current = String::new();
    let mut within = false;
    for i in 0..n
        invariant
            n == c@.len(),
            c@ == text@,
            i == 0 ==> !within,
            i > 0 ==> within == (c@[i - 1] != '\n'),
            within ==> views(out@).push(current@) == lines(c@.take(i as int)),
            !within ==> views(out@) == lines(c@.take(i as int)) && current@.len() == 0,
    {
        let ghost s = c@.take(i as int + 1);
        let ghost done = views(out@);
        assert(s.drop_last() =~= c@.take(i as int));
        let x = c[i];
        if x == '\n' {
            proof {
                if !within {
                    assert(current@ =~= Seq::<char>::empty());
                }
            }
            out.push(current);
            assert(views(out@) =~= done.push(current@));
            current = String::new();
            within = false;
        } else {
            let ghost before = current@;
            current.push(x);
            proof {
                if !within {
                    assert(current@ =~= seq![x]);
                } else {
                    let f = lines(c@.take(i as int));
                    assert(f.drop_last() =~= views(out@));
                    assert(f.last() == before);
                }
            }
            within = true;
        }
    }
    assert(c@.take(n as int) =~= c@);
    if within {
        let ghost before = views(out@);
        out.push(current);
        assert(views(out@) =~= before.push(current@));
    }
    out
}

/// Where `c` first stands in `s`; the length of `s` if it does not.
pub open spec fn find_first(s: Seq<char>, c: char) -> int
    decreases s.len(),
{
    if s.len() == 0 || s[0] == c {
        0
    } else {
        1 + find_first(s.skip(1), c)
    }
}

proof fn find_first_is(s: Seq<char>, c: char, i: int)
    requires
        0 <= i <= s.len(),
        forall|k: int| 0 <= k < i ==> s[k] != c,
        i < s.len() ==> s[i] == c,
    ensures
        find_first(s, c) == i,
    decreases i,
{
    if i > 0 {
        find_first_is(s.skip(1), c, i - 1);
    }
}

/// What stands before the first `c`, if there is one.
pub open spec fn before_first(s: Seq<char>, c: char) -> Option<Seq<char>> {
    if find_first(s, c) < s.len() {
        Some(s.take(find_first(s, c)))
    } else {
        None
    }
}

/// What stands in `text` before the first `c`, if there is one.
pub fn text_before(text: &str, c: char) -> (t: Option<String>)
    ensures
        view_of(t) == before_first(text@, c),
{
    let chars = to_chars(text);
    let n: usize = chars.len();
    let mut i: usize = 0;
    while i < n && chars[i] != c
        invariant
            i <= n,
            n == chars@.len(),
            forall|k: int| 0 <= k < i ==> chars@[k] != c,
        decreases n - i,
    {
        i += 1;
    }
    proof {
        find_first_is(chars@, c, i as int);
    }
    if i < n {
        assert(chars@.subrange(0, i as int) =~= chars@.take(i as int));
        Some(slice_text(&chars, 0, i))
    } else {
        None
    }
}

/// Where `c` last stands in `s`; -1 if it does not.
pub open spec fn find_last(s: Seq<char>, c: char) -> int
    decreases s.len(),
{
    if s.len() == 0 {
        -1
    } else if s.last() == c {
        s.len() - 1
    } else {
        find_last(s.drop_last(), c)
    }
}

proof fn find_last_is(s: Seq<char>, c: char, i: int)
    requires
        -1 <= i < s.len(),
        forall|k: int| i < k < s.len() ==> s[k] != c,
        i >= 0 ==> s[i] == c,
    ensures
        find_last(s, c) == i,
    decreases s.len(),
{
    if s.len() > 0 && i < s.len() - 1 {
        find_last_is(s.drop_last(), c, i);
    }
}

/// What stands after the last `c`, if there is one.
pub open spec fn after_last(s: Seq<char>, c: char) -> Option<Seq<char>> {
    if find_last(s, c) >= 0 {
        Some(s.skip(find_last(s, c) + 1))
    } else {
        None
    }
}

/// What stands in `text` after the last `c`, if there is one.
pub fn text_after(text: &str, c: char) -> (t: Option<String>)
    ensures
        view_of(t) == after_last(text@, c),
{
    let chars = to_chars(text);
    let n: usize = chars.len();
    let mut i: usize = n;
    while i > 0 && chars[i - 1] != c
        invariant
            i <= n,
            n == chars@.len(),
            forall|k: int| i <= k < n ==> chars@[k] != c,
        decreases i,
    {
        i -= 1;
    }
    proof {
        find_last_is(chars@, c, i - 1);
    }
    if i > 0 {
        assert(chars@.subrange(i as int, n as int) =~= chars@.skip(i as int));
        Some(slice_text(&chars, i, n))
    } else {
        None
    }
}

/// The ASCII lower case of a character.
pub open spec fn lower_char(c: char) -> char {
    if 'A' <= c && c <= 'Z' {
        ((c as int) + 32) as char
    } else {
        c
    }
}

/// ASCII letters in lower case, all else as it is.
pub open spec fn lower(s: Seq<char>) -> Seq<char> {
    s.map_values(|c: char| lower_char(c))
}

fn to_lower(c: char) -> (d: char)
    ensures
        d == lower_char(c),
{
    if 'A' <= c && c <= 'Z' {
        let n: u8 = c as u8;
        (n + 32) as char
    } else {
        c
    }
}

/// `text` with its ASCII letters in lower case.
pub fn lower_text(text: &str) -> (t: String)
    ensures
        t@ == lower(text@),
{
    let c = to_chars(text);
    let mut t = String::new();
    for i in 0..c.len()
        invariant
            c@ == text@,
            t@ == lower(c@.take(i as int)),
    {
        t.push(to_lower(c[i]));
        assert(lower(c@.take(i as int + 1)) =~= lower(c@.take(i as int)).push(lower_char(c@[i as int])));
    }
    assert(c@.take(c@.len() as int) =~= c@);
    t
}

/// Is the character a decimal digit?
pub open spec fn is_digit(c: char) -> bool {
    '0' <= c && c <= '9'
}

/// The value of a row of decimal digits.
pub open spec fn digits_value(s: Seq<char>) -> nat
    decreases s.len(),
{
    if s.len() == 0 {
        0
    } else {
        (digits_value(s.drop_last()) * 10 + (s.last() as int - 48)) as nat
    }
}

/// The digits of a number, without the plus sign that may lead them.
pub open spec fn without_plus(s: Seq<char>) -> Seq<char> {
    if s.len() > 0 && s[0] == '+' {
        s.skip(1)
    } else {
        s
    }
}

/// The number that a text spells: one or more decimal digits, after a plus
/// sign or none, with a value of at most `max`.
pub open spec fn parse_number(s: Seq<char>, max: int) -> Option<nat> {
    let d = without_plus(s);
    if d.len() > 0 && (forall|i: int| 0 <= i < d.len() ==> is_digit(#[trigger] d[i])) && digits_value(
        d,
    ) <= max {
        Some(digits_value(d))
    } else {
        None
    }
}

/// The number that `text` spells, if it is at most `max`.
pub fn parse_bounded(text: &str, max: u64) -> (n: Option<u64>)
    ensures
        match n {
            Some(v) => parse_number(text@, max as int) == Some(v as nat),
            None => parse_number(text@, max as int) is None,
        },
{
    let c = to_chars(text);
    let len: usize = c.len();
    let start: usize = if len > 0 && c[0] == '+' {
        1
    } else {
        0
    };
    let ghost d = without_plus(c@);
    assert(d =~= c@.skip(start as int));
    if start == len {
        return None;
    }
    let mut value: u64 = 0;
    let mut i: usize = start;
    let mut over = false;
    while i < len
        invariant
            start <= i <= len,
            len == c@.len(),
            c@ == text@,
            d == without_plus(text@),
            d == c@.skip(start as int),
            forall|k: int| 0 <= k < i - start ==> is_digit(#[trigger] d[k]),
            !over ==> value == digits_value(d.take(i - start)) && value <= max,
            over ==> digits_value(d.take(i - start)) > max,
        decreases len - i,
    {
        let x = c[i];
        assert(x == d[i - start]);
        if !('0' <= x && x <= '9') {
            return None;
        }
        assert(d.take(i - start + 1).drop_last() =~= d.take(i - start));
        let digit: u64 = (x as u32 - 48) as u64;
        if !over {
            let next: u128 = value as u128 * 10 + digit as u128;
            if next > max as u128 {
                over = true;
            } else {
                value = next as u64;
            }
        }
        i += 1;
    }
    assert(d.take(d.len() as int) =~= d);
    if over {
        None
    } else {
        Some(value)
    }
}

/// The number that `text` spells, if it fits in a `usize`.
pub fn parse_usize(text: &str) -> (n: Option<usize>)
    ensures
        match n {
            Some(v) => parse_number(text@, usize::MAX as int) == Some(v as nat),
            None => parse_number(text@, usize::MAX as int) is None,
        },
{
    match parse_bounded(text, usize::MAX as u64) {
        Some(v) => Some(v as usize),
        None => None,
    }
}

/// The character of a digit below ten.
pub open spec fn digit_char(d: nat) -> char {
    (48 + d) as char
}

/// A number in decimal digits.
pub open spec fn decimal(n: nat) -> Seq<char>
    decreases n,
{
    if n < 10 {
        seq![digit_char(n)]
    } else {
        decimal(n / 10).push(digit_char(n % 10))
    }
}

/// `n` in decimal digits.
pub fn decimal_text(n: u64) -> (t: String)
    ensures
        t@ == decimal(n as nat),
    decreases n,
{
    let digit: u8 = (48 + n % 10) as u8;
    let c = digit as char;
    assert(c == digit_char((n % 10) as nat));
    let mut t = if n < 10 {
        String::new()
    } else {
        decimal_text(n / 10)
    };
    t.push(c);
    assert(n < 10 ==> t@ =~= seq![c]);
    t
}

/// Reading back a number in decimal digits gives the number.
pub proof fn decimal_reads_back(n: nat, max: int)
    requires
        n <= max,
    ensures
        parse_number(decimal(n), max) == Some(n),
{
    decimal_digits(n);
    assert(decimal(n)[0] != '+') by {
        assert(is_digit(decimal(n)[0]));
    }
}

proof fn decimal_digits(n: nat)
    ensures
        decimal(n).len() > 0,
        forall|i: int| 0 <= i < decimal(n).len() ==> is_digit(#[trigger] decimal(n)[i]),
        digits_value(decimal(n)) == n,
    decreases n,
{
    if n >= 10 {
        decimal_digits(n / 10);
        assert(decimal(n).drop_last() =~= decimal(n / 10));
    } else {
        let d = decimal(n);
        assert(d.drop_last() =~= Seq::<char>::empty());
        assert(digits_value(d.drop_last()) == 0);
    }
}

/// The character of a hexadecimal digit.
pub open spec fn hex_char(d: nat) -> char {
    if d < 10 {
        (48 + d) as char
    } else {
        (87 + d) as char
    }
}

/// The lowest `width` hexadecimal digits of a number.
pub open spec fn hex(n: nat, width: nat) -> Seq<char>
    decreases width,
{
    if width == 0 {
        Seq::empty()
    } else {
        hex(n / 16, (width - 1) as nat).push(hex_char(n % 16))
    }
}

/// The lowest `width` hexadecimal digits of `n`.
pub fn hex_text(n: u64, width: usize) -> (t: String)
    ensures
        t@ == hex(n as nat, width as nat),
    decreases width,
{
    if width == 0 {
        let t = String::new();
        assert(t@ =~= Seq::<char>::empty());
        return t;
    }
    let mut t = hex_text(n / 16, width - 1);
    let d: u8 = (n % 16) as u8;
    let c = if d < 10 {
        (48 + d) as char
    } else {
        (87 + d) as char
    };
    t.push(c);
    t
}

/// The parts one after another, with `sep` between them.
pub open spec fn joined(parts: Seq<Seq<char>>, sep: Seq<char>) -> Seq<char>
    decreases parts.len(),
{
    if parts.len() == 0 {
        Seq::empty()
    } else if parts.len() == 1 {
        parts[0]
    } else {
        joined(parts.drop_last(), sep) + sep + parts.last()
    }
}

/// `parts` one after another, with `sep` between them.
pub fn join(parts: &Vec<String>, sep: &str) -> (t: String)
    ensures
        t@ == joined(views(parts@), sep@),
{
    let mut t = String::new();
    assert(t@ =~= Seq::<char>::empty());
    for i in 0..parts.len()
        invariant
            t@ == joined(views(parts@.take(i as int)), sep@),
    {
        let ghost done = views(parts@.take(i as int + 1));
        assert(done.drop_last() =~= views(parts@.take(i as int)));
        if i > 0 {
            t.append(sep);
        }
        let ghost before = t@;
        t.append(parts[i].as_str());
        assert(i == 0 ==> t@ =~= parts@[0]@);
    }
    assert(parts@.take(parts@.len() as int) =~= parts@);
    t
}

/// `s` with every occurrence of `part`, found from the left, replaced.
pub open spec fn replaced(s: Seq<char>, part: Seq<char>, with: Seq<char>) -> Seq<char>
    recommends
        part.len() > 0,
    decreases s.len(),
{
    if part.len() == 0 || s.len() < part.len() {
        s
    } else if part.is_prefix_of(s) {
        with + replaced(s.skip(part.len() as int), part, with)
    } else {
        seq![s[0]] + replaced(s.skip(1), part, with)
    }
}

/// How many occurrences of `part`, found from the left, are replaced in `s`.
pub open spec fn occurrences(s: Seq<char>, part: Seq<char>) -> nat
    recommends
        part.len() > 0,
    decreases s.len(),
{
    if part.len() == 0 || s.len() < part.len() {
        0
    } else if part.is_prefix_of(s) {
        1 + occurrences(s.skip(part.len() as int), part)
    } else {
        occurrences(s.skip(1), part)
    }
}

/// `text` with every occurrence of `part` replaced.
pub fn replace(text: &str, part: &str, with: &str) -> (t: String)
    requires
        part@.len() > 0,
    ensures
        t@ == replaced(text@, part@, with@),
{
    let s = to_chars(text);
    let p = to_chars(part);
    let n: usize = s.len();
    let m: usize = p.len();
    let mut t = String::new();
    let mut i: usize = 0;
    proof {
        assert(s@.skip(0) =~= s@);
        assert(t@ + replaced(s@, p@, with@) =~= replaced(s@, p@, with@));
    }
    while n - i >= m
        invariant
            i <= n,
            n == s@.len(),
            m == p@.len(),
            m > 0,
            t@ + replaced(s@.skip(i as int), p@, with@) == replaced(s@, p@, with@),
        decreases n - i,
    {
        let ghost rest = s@.skip(i as int);
        let ghost done = t@;
        assert(rest.subrange(0, m as int) =~= s@.subrange(i as int, i + m));
        if occurs_at(&s, &p, i) {
            t.append(with);
            assert(rest.skip(m as int) =~= s@.skip(i + m));
            assert(t@ + replaced(rest.skip(m as int), p@, with@) =~= done + (with@ + replaced(
                rest.skip(m as int),
                p@,
                with@,
            )));
            i += m;
        } else {
            t.push(s[i]);
            assert(rest.skip(1) =~= s@.skip(i + 1));
            assert(t@ + replaced(rest.skip(1), p@, with@) =~= done + (seq![rest[0]] + replaced(
                rest.skip(1),
                p@,
                with@,
            )));
            i += 1;
        }
    }
    let tail = slice_text(&s, i, n);
    assert(s@.subrange(i as int, n as int) =~= s@.skip(i as int));
    t.append(tail.as_str());
    t
}

} // verus!
