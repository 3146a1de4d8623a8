//! Text helpers shared by the rest of the crate.
//!
//! Strings are modelled by their view, a `Seq<char>`. The helpers here turn a
//! string into its characters and back, so that the rest of the crate can
//! work on `Vec<char>` where it needs to look inside a string.

use vstd::prelude::*;
use vstd::string::*;

verus! {

/// Whether `c` is white space: it has the Unicode property `White_Space`.
/// Those are the controls from tab to carriage return, the space, next
/// line, the no-break space, the ogham space mark, the spaces from en quad
/// to hair space, the line and the paragraph separator, the narrow
/// no-break space, the medium mathematical space and the ideographic
/// space.
pub open spec fn char_is_space(c: char) -> bool {
    let n = c as u32;
    ||| 0x09 <= n <= 0x0D
    ||| n == 0x20
    ||| n == 0x85
    ||| n == 0xA0
    ||| n == 0x1680
    ||| 0x2000 <= n <= 0x200A
    ||| n == 0x2028
    ||| n == 0x2029
    ||| n == 0x202F
    ||| n == 0x205F
    ||| n == 0x3000
}

/// The lowercase form of a string.
///
/// Names the result of `str::to_lowercase`, the Unicode lowercase mapping.
pub uninterp spec fn lowercase_of(s: Seq<char>) -> Seq<char>;

/// Calls `char::is_whitespace`, which says whether the character has the
/// Unicode property `White_Space`; the contract lists the characters that
/// have it.
#[verifier::external_body]
fn is_space(c: char) -> (r: bool)
    ensures
        r == char_is_space(c),
{
    c.is_whitespace()
}

/// Calls `str::to_lowercase`; the contract names its result.
#[verifier::external_body]
pub(crate) fn lowercase(s: &str) -> (r: String)
    ensures
        r@ == lowercase_of(s@),
{
    s.to_lowercase()
}

/// Calls `String::push`, which appends the character to the end of the
/// string.
#[verifier::external_body]
fn push_char(s: &mut String, c: char)
    ensures
        final(s)@ == old(s)@.push(c),
{
    s.push(c);
}

/// The string that holds exactly the given characters, in order.
pub fn text_of(chars: &Vec<char>) -> (s: String)
    ensures
        s@ == chars@,
{
    let mut s = String::new();
    let mut i: usize = 0;
    while i < chars.len()
        invariant
            i <= chars.len(),
            s@ == chars@.take(i as int),
        decreases chars.len() - i,
    {
        push_char(&mut s, chars[i]);
        assert(s@ =~= chars@.take(i + 1));
        i += 1;
    }
    assert(chars@.take(i as int) =~= chars@);
    s
}

/// The characters of a string, in order.
pub fn chars_of(s: &str) -> (v: Vec<char>)
    ensures
        v@ == s@,
{
    let mut v: Vec<char> = Vec::new();
    for c in it: s.chars()
        invariant
            it.seq() == s@,
            v@ == it.seq().take(it.index() as int),
    {
        v.push(c);
        assert(it.seq().take(it.index() + 1) =~= it.seq().take(it.index() as int).push(c));
    }
    assert(v@ =~= s@);
    v
}

/// Whether two strings hold the same characters.
pub fn same(a: &String, b: &String) -> (r: bool)
    ensures
        r == (a@ == b@),
{
    a.eq(b)
}

/// Whether a string holds the same characters as a string slice.
pub fn same_str(a: &String, b: &str) -> (r: bool)
    ensures
        r == (a@ == b@),
{
    let other = String::from_str(b);
    a.eq(&other)
}

/// A string is blank when it holds nothing but white space.
pub open spec fn blank(s: Seq<char>) -> bool {
    forall|i: int| 0 <= i < s.len() ==> char_is_space(#[trigger] s[i])
}

/// Whether a string is empty once leading and trailing white space is removed.
pub fn is_blank(s: &str) -> (r: bool)
    ensures
        r == blank(s@),
{
    let chars = chars_of(s);
    let mut i: usize = 0;
    while i < chars.len()
        invariant
            i <= chars.len(),
            chars@ == s@,
            forall|j: int| 0 <= j < i ==> char_is_space(#[trigger] chars@[j]),
        decreases chars.len() - i,
    {
        if !is_space(chars[i]) {
            assert(!char_is_space(s@[i as int]));
            return false;
        }
        i += 1;
    }
    true
}

/// The character for a single decimal digit.
pub open spec fn digit_char(d: nat) -> char {
    if d == 0 {
        '0'
    } else if d == 1 {
        '1'
    } else if d == 2 {
        '2'
    } else if d == 3 {
        '3'
    } else if d == 4 {
        '4'
    } else if d == 5 {
        '5'
    } else if d == 6 {
        '6'
    } else if d == 7 {
        '7'
    } else if d == 8 {
        '8'
    } else {
        '9'
    }
}

/// Decimal digits of `n`, most significant first, without leading zeros.
pub open spec fn decimal_digits(n: nat) -> Seq<char>
    decreases n,
{
    if n < 10 {
        seq![digit_char(n)]
    } else {
        decimal_digits(n / 10).push(digit_char(n % 10))
    }
}

fn digit(d: u64) -> (c: char)
    requires
        d < 10,
    ensures
        c == digit_char(d as nat),
{
    if d == 0 {
        '0'
    } else if d == 1 {
        '1'
    } else if d == 2 {
        '2'
    } else if d == 3 {
        '3'
    } else if d == 4 {
        '4'
    } else if d == 5 {
        '5'
    } else if d == 6 {
        '6'
    } else if d == 7 {
        '7'
    } else if d == 8 {
        '8'
    } else {
        '9'
    }
}

/// Appends the decimal digits of `n` to `out`.
pub fn push_decimal(out: &mut Vec<char>, n: u64)
    ensures
        final(out)@ == old(out)@ + decimal_digits(n as nat),
    decreases n,
{
    if n < 10 {
        out.push(digit(n));
        assert(out@ =~= old(out)@ + decimal_digits(n as nat));
    } else {
        push_decimal(out, n / 10);
        out.push(digit(n % 10));
        assert(out@ =~= old(out)@ + decimal_digits(n as nat));
    }
}

/// The decimal form of `n`.
pub fn decimal(n: u64) -> (s: String)
    ensures
        s@ == decimal_digits(n as nat),
{
    let mut out: Vec<char> = Vec::new();
    push_decimal(&mut out, n);
    assert(out@ =~= decimal_digits(n as nat));
    text_of(&out)
}

/// Appends the characters of `s` to `out`.
pub fn push_str(out: &mut Vec<char>, s: &str)
    ensures
        final(out)@ == old(out)@ + s@,
{
    let mut chars = chars_of(s);
    out.append(&mut chars);
}

/// `needle` occurs in `hay` at position `at`.
pub open spec fn occurs_at(hay: Seq<char>, needle: Seq<char>, at: int) -> bool {
    &&& 0 <= at
    &&& at + needle.len() <= hay.len()
    &&& hay.subrange(at, at + needle.len()) == needle
}

/// `needle` occurs somewhere in `hay`.
pub open spec fn contains_text(hay: Seq<char>, needle: Seq<char>) -> bool {
    exists|at: int| occurs_at(hay, needle, at)
}

fn matches_at(hay: &Vec<char>, needle: &Vec<char>, at: usize) -> (r: bool)
    requires
        at + needle.len() <= hay.len(),
    ensures
        r == occurs_at(hay@, needle@, at as int),
{
    let mut j: usize = 0;
    while j < needle.len()
        invariant
            j <= needle.len(),
            at + needle.len() <= hay.len(),
            forall|k: int| 0 <= k < j ==> hay@[at + k] == needle@[k],
        decreases needle.len() - j,
    {
        if hay[at + j] != needle[j] {
            proof {
                let sub = hay@.subrange(at as int, at + needle.len());
                assert(sub[j as int] == hay@[at + j]);
            }
            return false;
        }
        j += 1;
    }
    assert(hay@.subrange(at as int, at + needle.len()) =~= needle@);
    true
}

/// Whether `needle` occurs in `hay`.
pub fn contains(hay: &Vec<char>, needle: &Vec<char>) -> (r: bool)
    ensures
        r == contains_text(hay@, needle@),
{
    if needle.len() > hay.len() {
        return false;
    }
    if needle.len() == 0 {
        assert(hay@.subrange(0, 0) =~= needle@);
        assert(occurs_at(hay@, needle@, 0));
        return true;
    }
    let mut at: usize = 0;
    while at <= hay.len() - needle.len()
        invariant
            0 < needle.len() <= hay.len(),
            at <= hay.len(),
            forall|k: int| 0 <= k < at ==> !occurs_at(hay@, needle@, k),
        decreases hay.len() - at,
    {
        if matches_at(hay, needle, at) {
            return true;
        }
        at += 1;
    }
    false
}

/// Whether `needle` occurs in `hay`, both given as strings.
pub fn str_contains(hay: &str, needle: &str) -> (r: bool)
    ensures
        r == contains_text(hay@, needle@),
{
    let h = chars_of(hay);
    let n = chars_of(needle);
    contains(&h, &n)
}

/// The lowercase form of an ASCII letter; any other character unchanged.
pub open spec fn ascii_lower(c: char) -> char {
    if 'A' <= c && c <= 'Z' {
        ((c as u8) + 32) as char
    } else {
        c
    }
}

/// Two strings are equal up to the case of their ASCII letters.
pub open spec fn eq_ignoring_ascii_case(a: Seq<char>, b: Seq<char>) -> bool {
    &&& a.len() == b.len()
    &&& forall|i: int| 0 <= i < a.len() ==> ascii_lower(#[trigger] a[i]) == ascii_lower(b[i])
}

fn to_ascii_lower(c: char) -> (r: char)
    ensures
        r == ascii_lower(c),
{
    if 'A' <= c && c <= 'Z' {
        ((c as u8) + 32) as char
    } else {
        c
    }
}

/// Whether two strings are equal up to the case of their ASCII letters.
pub fn eq_ignore_ascii_case(a: &str, b: &str) -> (r: bool)
    ensures
        r == eq_ignoring_ascii_case(a@, b@),
{
    let x = chars_of(a);
    let y = chars_of(b);
    if x.len() != y.len() {
        return false;
    }
    let mut i: usize = 0;
    while i < x.len()
        invariant
            i <= x.len(),
            x.len() == y.len(),
            x@ == a@,
            y@ == b@,
            forall|j: int| 0 <= j < i ==> ascii_lower(#[trigger] x@[j]) == ascii_lower(y@[j]),
        decreases x.len() - i,
    {
        if to_ascii_lower(x[i]) != to_ascii_lower(y[i]) {
            assert(ascii_lower(a@[i as int]) != ascii_lower(b@[i as int]));
            return false;
        }
        i += 1;
    }
    true
}


/// The index of the first occurrence of `item` in `list`, or the list's
/// length where it does not occur.
pub open spec fn position_of(list: Seq<Seq<char>>, item: Seq<char>) -> int
    decreases list.len(),
{
    if list.len() == 0 {
        0
    } else if list[0] == item {
        0
    } else {
        1 + position_of(list.drop_first(), item)
    }
}

/// Where the first occurrence stands.
pub proof fn lemma_position_of(list: Seq<Seq<char>>, item: Seq<char>)
    ensures
        0 <= position_of(list, item) <= list.len(),
        position_of(list, item) < list.len() ==> list[position_of(list, item)] == item,
        forall|i: int| 0 <= i < position_of(list, item) ==> #[trigger] list[i] != item,
    decreases list.len(),
{
    if list.len() > 0 && list[0] != item {
        let rest = list.drop_first();
        lemma_position_of(rest, item);
        assert forall|i: int| 0 <= i < position_of(list, item) implies #[trigger] list[i]
            != item by {
            if i > 0 {
                assert(list[i] == rest[i - 1]);
            }
        }
    }
}

/// The first occurrence is the only index with nothing equal before it.
pub proof fn lemma_position_is(list: Seq<Seq<char>>, item: Seq<char>, at: int)
    requires
        0 <= at <= list.len(),
        at < list.len() ==> list[at] == item,
        forall|i: int| 0 <= i < at ==> #[trigger] list[i] != item,
    ensures
        position_of(list, item) == at,
{
    lemma_position_of(list, item);
    let p = position_of(list, item);
    if p < at {
        assert(list[p] != item);
    }
    if at < p {
        assert(list[at] != item);
    }
}

/// Whether `item` occurs in `list`.
pub open spec fn listed(list: Seq<Seq<char>>, item: Seq<char>) -> bool {
    position_of(list, item) < list.len()
}

/// The index of the first string equal to `item`, or the list's length.
pub fn find_text(list: &Vec<String>, item: &String) -> (r: usize)
    ensures
        r == position_of(crate::commands::auto::strs(list@), item@),
{
    let ghost all = crate::commands::auto::strs(list@);
    let mut i: usize = 0;
    while i < list.len()
        invariant
            i <= list.len(),
            all == crate::commands::auto::strs(list@),
            forall|j: int| 0 <= j < i ==> #[trigger] all[j] != item@,
        decreases list.len() - i,
    {
        if list[i].eq(item) {
            proof {
                lemma_position_is(all, item@, i as int);
            }
            return i;
        }
        i += 1;
    }
    proof {
        lemma_position_is(all, item@, i as int);
    }
    i
}

/// The two pieces, one after the other.
pub fn concat2(a: &str, b: &str) -> (r: String)
    ensures
        r@ == a@ + b@,
{
    let mut r = String::from_str(a);
    r.append(b);
    r
}

/// The four pieces, one after the other.
pub fn concat4(a: &str, b: &str, c: &str, d: &str) -> (r: String)
    ensures
        r@ == a@ + b@ + c@ + d@,
{
    let mut r = String::from_str(a);
    r.append(b);
    r.append(c);
    r.append(d);
    r
}

/// The three pieces, one after the other.
pub fn concat3(a: &str, b: &str, c: &str) -> (r: String)
    ensures
        r@ == a@ + b@ + c@,
{
    let mut r = String::from_str(a);
    r.append(b);
    r.append(c);
    r
}

/// The five pieces, one after the other.
pub fn concat5(a: &str, b: &str, c: &str, d: &str, e: &str) -> (r: String)
    ensures
        r@ == a@ + b@ + c@ + d@ + e@,
{
    let mut r = String::from_str(a);
    r.append(b);
    r.append(c);
    r.append(d);
    r.append(e);
    r
}

/// The strings of `list` without repetition: each one where it first occurs.
pub open spec fn unique_texts(list: Seq<Seq<char>>) -> Seq<Seq<char>>
    decreases list.len(),
{
    if list.len() == 0 {
        Seq::empty()
    } else {
        let init = unique_texts(list.drop_last());
        if listed(init, list.last()) {
            init
        } else {
            init.push(list.last())
        }
    }
}

/// Appends `item` to `out` unless it is there already.
pub fn push_unique(out: &mut Vec<String>, item: &String)
    ensures
        crate::commands::auto::strs(final(out)@) == if listed(
            crate::commands::auto::strs(old(out)@),
            item@,
        ) {
            crate::commands::auto::strs(old(out)@)
        } else {
            crate::commands::auto::strs(old(out)@).push(item@)
        },
{
    if find_text(out, item) >= out.len() {
        let ghost before = crate::commands::auto::strs(out@);
        out.push(item.clone());
        assert(crate::commands::auto::strs(out@) =~= before.push(item@));
    }
}

/// Appends each string of `items` to `out` unless it is there already.
pub fn push_all_unique(out: &mut Vec<String>, items: &Vec<String>)
    requires
        crate::commands::auto::strs(old(out)@) == unique_texts(
            crate::commands::auto::strs(old(out)@),
        ),
    ensures
        crate::commands::auto::strs(final(out)@) == unique_texts(
            crate::commands::auto::strs(old(out)@) + crate::commands::auto::strs(items@),
        ),
{
    let ghost start = crate::commands::auto::strs(out@);
    let ghost more = crate::commands::auto::strs(items@);
    let mut i: usize = 0;
    assert(start + more.take(0) =~= start);
    while i < items.len()
        invariant
            i <= items.len(),
            more == crate::commands::auto::strs(items@),
            crate::commands::auto::strs(out@) == unique_texts(start + more.take(i as int)),
        decreases items.len() - i,
    {
        proof {
            let next = start + more.take(i + 1);
            assert(next.drop_last() =~= start + more.take(i as int));
            assert(next.last() == items@[i as int]@);
        }
        push_unique(out, &items[i]);
        i += 1;
    }
    assert(more.take(i as int) =~= more);
}

/// The strings of `parts`, one after the other, with `sep` between them.
pub open spec fn joined_with(parts: Seq<Seq<char>>, sep: Seq<char>) -> Seq<char>
    decreases parts.len(),
{
    if parts.len() == 0 {
        Seq::empty()
    } else if parts.len() == 1 {
        parts[0]
    } else {
        joined_with(parts.drop_last(), sep) + sep + parts.last()
    }
}

/// Joins `parts` with `sep` between them.
pub fn join_with(parts: &Vec<String>, sep: &str) -> (r: String)
    ensures
        r@ == joined_with(crate::commands::auto::strs(parts@), sep@),
{
    let ghost all = crate::commands::auto::strs(parts@);
    let mut out = String::new();
    let mut i: usize = 0;
    assert(all.take(0) =~= Seq::<Seq<char>>::empty());
    while i < parts.len()
        invariant
            i <= parts.len(),
            all == crate::commands::auto::strs(parts@),
            out@ == joined_with(all.take(i as int), sep@),
        decreases parts.len() - i,
    {
        proof {
            let next = all.take(i + 1);
            assert(next.drop_last() =~= all.take(i as int));
            assert(next.last() == parts@[i as int]@);
            if i == 0 {
                assert(joined_with(next, sep@) == next[0]);
                assert(joined_with(all.take(0), sep@) =~= Seq::<char>::empty());
            }
        }
        if i > 0 {
            out.append(sep);
        }
        out.append(parts[i].as_str());
        assert(out@ =~= joined_with(all.take(i + 1), sep@));
        i += 1;
    }
    assert(all.take(i as int) =~= all);
    out
}

/// `n` spaces.
pub open spec fn spaces(n: nat) -> Seq<char> {
    Seq::new(n, |i: int| ' ')
}

/// `s` moved to the right end of a field of `width` characters; unchanged
/// where it is at least that long.
pub open spec fn right_aligned(s: Seq<char>, width: nat) -> Seq<char> {
    if s.len() >= width {
        s
    } else {
        spaces((width - s.len()) as nat) + s
    }
}

/// Pads `s` on the left with spaces to `width` characters.
pub fn pad_left(s: &str, width: usize) -> (r: String)
    ensures
        r@ == right_aligned(s@, width as nat),
{
    let chars = chars_of(s);
    if chars.len() >= width {
        return String::from_str(s);
    }
    let missing = width - chars.len();
    let mut out: Vec<char> = Vec::new();
    let mut i: usize = 0;
    while i < missing
        invariant
            i <= missing,
            out@ == spaces(i as nat),
        decreases missing - i,
    {
        out.push(' ');
        assert(out@ =~= spaces((i + 1) as nat));
        i += 1;
    }
    let mut rest = chars;
    out.append(&mut rest);
    assert(out@ =~= right_aligned(s@, width as nat));
    text_of(&out)
}

} // verus!
