//! What holds of trimming, of lower case, of splitting and of UTF-8.
use vstd::prelude::*;

use crate::text;

verus! {

/// Trimming drops characters at the start until one stays.
proof fn lemma_trim_start(s: Seq<char>, drop: spec_fn(char) -> bool) -> (k: int)
    ensures
        0 <= k <= s.len(),
        text::trim_start(s, drop) == s.skip(k),
        forall|j: int| 0 <= j < k ==> drop(#[trigger] s[j]),
        k < s.len() ==> !drop(s[k]),
    decreases s.len(),
{
    if s.len() > 0 && drop(s[0]) {
        let rest = s.skip(1);
        let k = lemma_trim_start(rest, drop);
        assert(rest.skip(k) =~= s.skip(k + 1));
        assert forall|j: int| 0 <= j < k + 1 implies drop(#[trigger] s[j]) by {
            if j > 0 {
                assert(rest[j - 1] == s[j]);
            }
        }
        if k + 1 < s.len() {
            assert(rest[k] == s[k + 1]);
        }
        k + 1
    } else {
        assert(s.skip(0) =~= s);
        0
    }
}

/// Trimming drops characters at the end until one stays.
proof fn lemma_trim_end(s: Seq<char>, drop: spec_fn(char) -> bool) -> (k: int)
    ensures
        0 <= k <= s.len(),
        text::trim_end(s, drop) == s.take(k),
        forall|j: int| k <= j < s.len() ==> drop(#[trigger] s[j]),
        k > 0 ==> !drop(s[k - 1]),
    decreases s.len(),
{
    if s.len() > 0 && drop(s.last()) {
        let rest = s.drop_last();
        let k = lemma_trim_end(rest, drop);
        assert(rest.take(k) =~= s.take(k));
        assert forall|j: int| k <= j < s.len() implies drop(#[trigger] s[j]) by {
            if j < s.len() - 1 {
                assert(rest[j] == s[j]);
            }
        }
        if k > 0 {
            assert(rest[k - 1] == s[k - 1]);
        }
        k
    } else {
        assert(s.take(s.len() as int) =~= s);
        s.len() as int
    }
}

/// What trimming leaves stands between two indices: white space alone before
/// the first and from the second on, and none at either end of what is left.
pub proof fn lemma_trim(s: Seq<char>) -> (bounds: (int, int))
    ensures
        0 <= bounds.0 <= bounds.1 <= s.len(),
        text::trim(s) == s.subrange(bounds.0, bounds.1),
        forall|j: int| 0 <= j < bounds.0 ==> text::is_space(#[trigger] s[j]),
        forall|j: int| bounds.1 <= j < s.len() ==> text::is_space(#[trigger] s[j]),
        bounds.0 < bounds.1 ==> !text::is_space(s[bounds.0]) && !text::is_space(s[bounds.1 - 1]),
{
    let drop = |c: char| text::is_space(c);
    let a = lemma_trim_start(s, drop);
    let body = s.skip(a);
    let k = lemma_trim_end(body, drop);
    assert(body.take(k) =~= s.subrange(a, a + k));
    assert forall|j: int| a + k <= j < s.len() implies text::is_space(#[trigger] s[j]) by {
        assert(body[j - a] == s[j]);
        assert(drop(body[j - a]));
    }
    assert forall|j: int| 0 <= j < a implies text::is_space(#[trigger] s[j]) by {
        assert(drop(s[j]));
    }
    if k > 0 {
        assert(body[k - 1] == s[a + k - 1]);
        assert(!drop(body[k - 1]));
        assert(!drop(s[a]));
    }
    (a, a + k)
}

/// Two indices of that kind are those that trimming finds.
pub proof fn lemma_trim_is(s: Seq<char>, a: int, b: int)
    requires
        0 <= a <= b <= s.len(),
        forall|j: int| 0 <= j < a ==> text::is_space(#[trigger] s[j]),
        forall|j: int| b <= j < s.len() ==> text::is_space(#[trigger] s[j]),
        a < b ==> !text::is_space(s[a]) && !text::is_space(s[b - 1]),
    ensures
        text::trim(s) == s.subrange(a, b),
{
    let (c, d) = lemma_trim(s);
    if a < b {
        if c < d {
            if a < c {
                assert(text::is_space(s[a]));
            }
            if c < a {
                assert(text::is_space(s[c]));
            }
            if d < b {
                assert(text::is_space(s[b - 1]));
            }
            if b < d {
                assert(text::is_space(s[d - 1]));
            }
        } else {
            assert(text::is_space(s[a]));
        }
    } else if c < d {
        assert(text::is_space(s[c]));
    }
    assert(s.subrange(a, b) =~= s.subrange(c, d));
}

/// White space around a text changes nothing of what trimming leaves.
pub proof fn lemma_trim_padded(before: Seq<char>, s: Seq<char>, after: Seq<char>)
    requires
        forall|j: int| 0 <= j < before.len() ==> text::is_space(#[trigger] before[j]),
        forall|j: int| 0 <= j < after.len() ==> text::is_space(#[trigger] after[j]),
    ensures
        text::trim(before + s + after) == text::trim(s),
{
    let all = before + s + after;
    let n = before.len() as int;
    let (a, b) = lemma_trim(s);
    assert forall|j: int| 0 <= j < n + a implies text::is_space(#[trigger] all[j]) by {
        if j < n {
            assert(all[j] == before[j]);
        } else {
            assert(all[j] == s[j - n]);
        }
    }
    assert forall|j: int| n + b <= j < all.len() implies text::is_space(#[trigger] all[j]) by {
        if j < n + s.len() {
            assert(all[j] == s[j - n]);
        } else {
            assert(all[j] == after[j - n - s.len()]);
        }
    }
    if a < b {
        assert(all[n + a] == s[a]);
        assert(all[n + b - 1] == s[b - 1]);
    }
    lemma_trim_is(all, n + a, n + b);
    assert(all.subrange(n + a, n + b) =~= s.subrange(a, b));
}

/// What was trimmed is trimmed.
pub proof fn lemma_trim_twice(s: Seq<char>)
    ensures
        text::trim(text::trim(s)) == text::trim(s),
        text::trim(s).len() <= s.len(),
        text::trim(s).len() == s.len() ==> text::trim(s) == s,
{
    let (a, b) = lemma_trim(s);
    let t = text::trim(s);
    if a < b {
        assert(t[0] == s[a]);
        assert(t[t.len() - 1] == s[b - 1]);
    }
    lemma_trim_is(t, 0, t.len() as int);
    assert(t.subrange(0, t.len() as int) =~= t);
    if t.len() == s.len() {
        assert(t =~= s);
    }
}

/// A text without white space at either end is trimmed.
pub proof fn lemma_trimmed(s: Seq<char>)
    requires
        s.len() > 0 ==> !text::is_space(s[0]) && !text::is_space(s.last()),
    ensures
        text::trim(s) == s,
{
    lemma_trim_is(s, 0, s.len() as int);
    assert(s.subrange(0, s.len() as int) =~= s);
}

/// After a text that begins and ends with no white space, trimming reaches
/// only the end of what follows.
pub proof fn lemma_trim_head(head: Seq<char>, tail: Seq<char>) -> (rest: Seq<char>)
    requires
        head.len() > 0,
        !text::is_space(head[0]),
        !text::is_space(head.last()),
    ensures
        text::trim(head + tail) == head + rest,
        text::trim(rest) == text::trim(tail),
        rest.is_prefix_of(tail),
{
    let (a, b) = lemma_trim(tail);
    let all = head + tail;
    let n = head.len() as int;
    let (from, to) = if a < b {
        (a, b)
    } else {
        (0, 0)
    };
    let rest = tail.take(to);
    assert forall|j: int| n + to <= j < all.len() implies text::is_space(#[trigger] all[j]) by {
        assert(all[j] == tail[j - n]);
    }
    lemma_trim_is(all, 0, n + to);
    assert(all.subrange(0, n + to) =~= head + rest);
    lemma_trim_is(rest, from, to);
    assert(rest.subrange(from, to) =~= tail.subrange(a, b));
    rest
}

/// What comes out of trimming and lower case goes through them unchanged,
/// and holds no character that was not there, letters apart.
pub proof fn lemma_clean(s: Seq<char>, c: char)
    ensures
        text::lower(text::trim(text::lower(text::trim(s)))) == text::lower(text::trim(s)),
        !('a' <= c <= 'z') && text::lower(text::trim(s)).contains(c) ==> s.contains(c),
{
    let t = text::trim(s);
    let l = text::lower(t);
    let (a, b) = lemma_trim(s);
    if t.len() > 0 {
        assert(t[0] == s[a] && t.last() == s[b - 1]);
    }
    lemma_trimmed(l);
    assert(text::lower(l) =~= l);
    if !('a' <= c <= 'z') && l.contains(c) {
        let i = choose|i: int| 0 <= i < l.len() && l[i] == c;
        assert(s[a + i] == c);
    }
}

/// Trimming keeps no character that was not there.
pub proof fn lemma_trim_holds(s: Seq<char>, c: char)
    ensures
        text::trim(s).contains(c) ==> s.contains(c),
{
    let (a, b) = lemma_trim(s);
    let t = text::trim(s);
    if t.contains(c) {
        let i = choose|i: int| 0 <= i < t.len() && t[i] == c;
        assert(s[a + i] == c);
    }
}

/// Two texts together hold what either holds.
pub proof fn lemma_holds<T>(a: Seq<T>, b: Seq<T>, x: T)
    ensures
        (a + b).contains(x) <==> a.contains(x) || b.contains(x),
{
    if a.contains(x) {
        let i = choose|i: int| 0 <= i < a.len() && a[i] == x;
        assert((a + b)[i] == x);
    }
    if b.contains(x) {
        let i = choose|i: int| 0 <= i < b.len() && b[i] == x;
        assert((a + b)[a.len() + i] == x);
    }
}

/// A text that starts with no `x` up to an `x`: the rest is what follows.
pub proof fn lemma_split_once<T>(a: Seq<T>, x: T, b: Seq<T>)
    requires
        !a.contains(x),
    ensures
        text::split_once(a + seq![x] + b, x) == Some((a, b)),
        text::split(a + seq![x] + b, x) == seq![a] + text::split(b, x),
        text::find(a + seq![x] + b, x) == a.len(),
{
    let s = a + seq![x] + b;
    assert forall|j: int| 0 <= j < a.len() implies s[j] != x by {
        assert(s[j] == a[j]);
    }
    assert(s[a.len() as int] == x);
    text::lemma_found(s, x, a.len() as int);
    assert(s.contains(x));
    assert(s.take(a.len() as int) =~= a);
    assert(s.skip((a.len() + 1) as int) =~= b);
}

/// A text without an `x` is one piece.
pub proof fn lemma_split_none<T>(a: Seq<T>, x: T)
    requires
        !a.contains(x),
    ensures
        text::split(a, x) == seq![a],
        text::split_once(a, x) is None,
        text::find(a, x) == a.len(),
{
    text::lemma_find(a, x);
}

/// The pieces of two texts with an `x` between them are the pieces of both.
pub proof fn lemma_split_concat<T>(a: Seq<T>, x: T, b: Seq<T>)
    ensures
        text::split(a + seq![x] + b, x) == text::split(a, x) + text::split(b, x),
    decreases a.len(),
{
    if a.contains(x) {
        text::lemma_find(a, x);
        let i = text::find(a, x);
        let first = a.take(i);
        let rest = a.skip(i + 1);
        assert(!first.contains(x));
        assert(a =~= first + seq![x] + rest);
        lemma_split_concat(rest, x, b);
        assert(a + seq![x] + b =~= first + seq![x] + (rest + seq![x] + b));
        lemma_split_once(first, x, rest + seq![x] + b);
        assert(text::split(a + seq![x] + b, x) =~= text::split(a, x) + text::split(b, x));
    } else {
        lemma_split_once(a, x, b);
        lemma_split_none(a, x);
    }
}

/// The pieces put together are the text, and none of them holds an `x`.
pub proof fn lemma_join_split<T>(s: Seq<T>, x: T)
    ensures
        text::join(text::split(s, x), x) == s,
        text::split(s, x).len() > 0,
        forall|i: int|
            0 <= i < text::split(s, x).len() ==> !(#[trigger] text::split(s, x)[i]).contains(x),
    decreases s.len(),
{
    let pieces = text::split(s, x);
    if s.contains(x) {
        text::lemma_find(s, x);
        let i = text::find(s, x);
        let rest = s.skip(i + 1);
        lemma_join_split(rest, x);
        assert(pieces.skip(1) =~= text::split(rest, x));
        assert(s =~= s.take(i) + seq![x] + rest);
        assert forall|j: int| 0 <= j < pieces.len() implies !(#[trigger] pieces[j]).contains(x) by {
            if j > 0 {
                assert(pieces[j] == text::split(rest, x)[j - 1]);
            } else {
                assert(pieces[0] == s.take(i));
            }
        }
    }
}

/// The encoding of two texts is the encodings of both.
pub proof fn lemma_encode_concat(a: Seq<char>, b: Seq<char>)
    ensures
        vstd::utf8::encode_utf8(a + b) == vstd::utf8::encode_utf8(a) + vstd::utf8::encode_utf8(b),
    decreases a.len(),
{
    if a.len() == 0 {
        assert(a + b =~= b);
        assert(vstd::utf8::encode_utf8(a) + vstd::utf8::encode_utf8(b) =~= vstd::utf8::encode_utf8(
            b,
        ));
    } else {
        lemma_encode_concat(a.drop_first(), b);
        assert((a + b).drop_first() =~= a.drop_first() + b);
        assert(vstd::utf8::encode_utf8(a + b) =~= vstd::utf8::encode_utf8(a)
            + vstd::utf8::encode_utf8(b));
    }
}

/// A text that begins with a character of ASCII begins with its byte.
pub proof fn lemma_encode_first(s: Seq<char>)
    requires
        s.len() > 0,
        '\0' <= s[0] <= '\u{7f}',
    ensures
        vstd::utf8::encode_utf8(s).len() > 0,
        vstd::utf8::encode_utf8(s)[0] == s[0] as u8,
{
    let first = seq![s[0]];
    lemma_encode_concat(first, s.skip(1));
    assert(s =~= first + s.skip(1));
    vstd::utf8::is_ascii_chars_encode_utf8(first);
}

/// A byte of ASCII stands in an encoding only for itself.
pub proof fn lemma_encode_ascii(s: Seq<char>, c: char)
    requires
        c as u32 <= 0x7f,
    ensures
        vstd::utf8::encode_utf8(s).contains(c as u8) ==> s.contains(c),
    decreases s.len(),
{
    let bytes = vstd::utf8::encode_utf8(s);
    if s.len() > 0 && bytes.contains(c as u8) {
        let first = vstd::utf8::encode_scalar(s[0] as u32);
        let rest = s.drop_first();
        lemma_encode_ascii(rest, c);
        let i = choose|i: int| 0 <= i < bytes.len() && bytes[i] == c as u8;
        if i < first.len() {
            assert(first[i] == c as u8);
            lemma_scalar_bytes(s[0], i, c);
        } else {
            assert(vstd::utf8::encode_utf8(rest)[i - first.len()] == c as u8);
            let j = choose|j: int| 0 <= j < rest.len() && rest[j] == c;
            assert(s[j + 1] == c);
        }
    }
}

/// A byte of ASCII stands in the encoding of one character only for itself.
proof fn lemma_scalar_bytes(c: char, i: int, ascii: char)
    requires
        0 <= i < vstd::utf8::encode_scalar(c as u32).len(),
        ascii as u32 <= 0x7f,
        vstd::utf8::encode_scalar(c as u32)[i] == ascii as u8,
    ensures
        c == ascii,
{
    let v = c as u32;
    assert(v <= 0x7f ==> (v & 0x7F) as u8 == v as u8) by (bit_vector);
    assert(0xC0 | ((v >> 6) & 0x1F) as u8 >= 0x80 && 0xE0 | ((v >> 12) & 0x0F) as u8 >= 0x80 && 0xF0
        | ((v >> 18) & 0x7) as u8 >= 0x80 && 0x80 | (v & 0x3F) as u8 >= 0x80 && 0x80 | ((v >> 6)
        & 0x3F) as u8 >= 0x80 && 0x80 | ((v >> 12) & 0x3F) as u8 >= 0x80) by (bit_vector);
}

/// A number is written in digits, and in at least one.
pub proof fn lemma_decimal(n: nat)
    ensures
        text::decimal(n).len() > 0,
        forall|i: int|
            0 <= i < text::decimal(n).len() ==> '0' <= #[trigger] text::decimal(n)[i] <= '9',
    decreases n,
{
    if n >= 10 {
        lemma_decimal(n / 10);
    }
}

/// Two numbers that are written alike are the same.
pub proof fn lemma_decimal_differs(a: nat, b: nat)
    ensures
        text::decimal(a) == text::decimal(b) ==> a == b,
    decreases a,
{
    let (s, t) = (text::decimal(a), text::decimal(b));
    if s == t {
        lemma_decimal(a / 10);
        lemma_decimal(b / 10);
        assert(s.last() == text::digit(a % 10));
        assert(t.last() == text::digit(b % 10));
        if a >= 10 {
            assert(b >= 10);
            assert(s.drop_last() =~= text::decimal(a / 10));
            assert(t.drop_last() =~= text::decimal(b / 10));
            lemma_decimal_differs(a / 10, b / 10);
        } else {
            assert(b < 10);
        }
    }
}

/// White space is what Unicode lists under `White_Space`: nothing that is seen
/// on paper, and of ASCII the space and the five from the tab to the carriage
/// return.
pub proof fn law_white_space(c: char)
    ensures
        text::is_space(c) <==> seq![
            0x9u32,
            0xa,
            0xb,
            0xc,
            0xd,
            0x20,
            0x85,
            0xa0,
            0x1680,
            0x2000,
            0x2001,
            0x2002,
            0x2003,
            0x2004,
            0x2005,
            0x2006,
            0x2007,
            0x2008,
            0x2009,
            0x200a,
            0x2028,
            0x2029,
            0x202f,
            0x205f,
            0x3000,
        ].contains(c as u32),
        '!' <= c <= '~' ==> !text::is_space(c),
{
    let listed = seq![
        0x9u32,
        0xa,
        0xb,
        0xc,
        0xd,
        0x20,
        0x85,
        0xa0,
        0x1680,
        0x2000,
        0x2001,
        0x2002,
        0x2003,
        0x2004,
        0x2005,
        0x2006,
        0x2007,
        0x2008,
        0x2009,
        0x200a,
        0x2028,
        0x2029,
        0x202f,
        0x205f,
        0x3000,
    ];
    let n = c as u32;
    if text::is_space(c) {
        let i: int = if n <= 0xd {
            n - 9
        } else if n == 0x20 {
            5
        } else if n == 0x85 {
            6
        } else if n == 0xa0 {
            7
        } else if n == 0x1680 {
            8
        } else if n <= 0x200a {
            n - 0x2000 + 9
        } else if n == 0x2028 {
            20
        } else if n == 0x2029 {
            21
        } else if n == 0x202f {
            22
        } else if n == 0x205f {
            23
        } else {
            24
        };
        assert(listed[i] == n);
    }
}

/// Trimming takes the white space from both ends, and nothing else.
pub proof fn law_trim_leaves_the_core(before: Seq<char>, core: Seq<char>, after: Seq<char>)
    requires
        forall|j: int| 0 <= j < before.len() ==> text::is_space(#[trigger] before[j]),
        forall|j: int| 0 <= j < after.len() ==> text::is_space(#[trigger] after[j]),
        core.len() > 0 ==> !text::is_space(core[0]) && !text::is_space(core.last()),
    ensures
        text::trim(before + core + after) == core,
{
    lemma_trim_padded(before, core, after);
    lemma_trimmed(core);
}

/// Angle brackets are taken from both ends, and nothing else is.
pub proof fn law_angles_leave_the_core(before: Seq<char>, core: Seq<char>, after: Seq<char>)
    requires
        forall|j: int| 0 <= j < before.len() ==> #[trigger] before[j] == '<' || before[j] == '>',
        forall|j: int| 0 <= j < after.len() ==> #[trigger] after[j] == '<' || after[j] == '>',
        core.len() > 0 ==> core[0] != '<' && core[0] != '>' && core.last() != '<' && core.last()
            != '>',
    ensures
        text::trim_angles(before + core + after) == core,
{
    let drop = |c: char| text::is_angle(c);
    let all = before + core + after;
    let k = lemma_trim_start(all, drop);
    let n = before.len() as int;
    if core.len() == 0 {
        if k < all.len() {
            assert(drop(all[k]));
        }
        assert(all.skip(k) =~= Seq::<char>::empty());
        assert(text::trim_angles(all) =~= core);
    } else {
        if k < n {
            assert(drop(all[k]));
        }
        if n < k {
            assert(drop(all[n]));
            assert(all[n] == core[0]);
        }
        let body = all.skip(n);
        assert(body =~= core + after);
        let m = lemma_trim_end(body, drop);
        if core.len() < m {
            assert(body[m - 1] == after[m - 1 - core.len()]);
            assert(drop(body[m - 1]));
        }
        if m < core.len() {
            assert(drop(body[core.len() - 1]));
            assert(body[core.len() - 1] == core.last());
        }
        assert(body.take(core.len() as int) =~= core);
    }
}

/// Lower case changes the 26 capitals of ASCII, each to its small letter, and
/// no other character; and it takes a text character by character.
pub proof fn law_lower_case(a: Seq<char>, b: Seq<char>, c: char)
    ensures
        text::lower("ABCDEFGHIJKLMNOPQRSTUVWXYZ"@) == "abcdefghijklmnopqrstuvwxyz"@,
        !"ABCDEFGHIJKLMNOPQRSTUVWXYZ"@.contains(c) ==> text::lower(seq![c]) == seq![c],
        text::lower(a + b) == text::lower(a) + text::lower(b),
{
    reveal_strlit("ABCDEFGHIJKLMNOPQRSTUVWXYZ");
    reveal_strlit("abcdefghijklmnopqrstuvwxyz");
    assert(text::lower("ABCDEFGHIJKLMNOPQRSTUVWXYZ"@) =~= "abcdefghijklmnopqrstuvwxyz"@);
    if 'A' <= c <= 'Z' {
        assert("ABCDEFGHIJKLMNOPQRSTUVWXYZ"@[c as u32 - 65] == c);
    }
    if !"ABCDEFGHIJKLMNOPQRSTUVWXYZ"@.contains(c) {
        assert(text::lower(seq![c]) =~= seq![c]);
    }
    assert(text::lower(a + b) =~= text::lower(a) + text::lower(b));
}

/// What follows a prefix is what, put behind it, gives the text again.
pub proof fn law_prefix_is_taken_off(s: Seq<char>, prefix: Seq<char>, rest: Seq<char>)
    ensures
        text::strip_prefix(s, prefix) == Some(rest) <==> s == prefix + rest,
{
    if prefix.is_prefix_of(s) {
        assert(s =~= prefix + s.skip(prefix.len() as int));
    }
    if s == prefix + rest {
        assert(prefix =~= s.subrange(0, prefix.len() as int));
        assert(s.skip(prefix.len() as int) =~= rest);
    }
}

/// The number that digits stand for.
pub open spec fn number(digits: Seq<char>) -> nat
    decreases digits.len(),
{
    if digits.len() == 0 {
        0
    } else {
        (number(digits.drop_last()) * 10 + (digits.last() as u32 - '0' as u32)) as nat
    }
}

/// The digits of a number stand for it, and begin with no zero but that of
/// zero itself.
pub proof fn law_digits_stand_for_the_number(n: nat)
    ensures
        number(text::decimal(n)) == n,
        text::decimal(n).len() > 0,
        forall|i: int|
            0 <= i < text::decimal(n).len() ==> '0' <= #[trigger] text::decimal(n)[i] <= '9',
        text::decimal(n)[0] == '0' ==> n == 0,
        n == 0 ==> text::decimal(n).len() == 1,
    decreases n,
{
    lemma_decimal(n);
    let digits = text::decimal(n);
    if n >= 10 {
        law_digits_stand_for_the_number(n / 10);
        assert(digits.drop_last() =~= text::decimal(n / 10));
    } else {
        assert(digits.drop_last() =~= Seq::<char>::empty());
        assert(number(Seq::<char>::empty()) == 0);
    }
}

/// Pieces put together with an `x` between each two split into those pieces.
pub proof fn lemma_split_join<T>(pieces: Seq<Seq<T>>, x: T)
    requires
        forall|i: int| 0 <= i < pieces.len() ==> !(#[trigger] pieces[i]).contains(x),
        pieces.len() > 0,
    ensures
        text::split(text::join(pieces, x), x) == pieces,
    decreases pieces.len(),
{
    assert(!pieces[0].contains(x));
    if pieces.len() == 1 {
        lemma_split_none(pieces[0], x);
        assert(text::split(pieces[0], x) =~= pieces);
    } else {
        let rest = pieces.skip(1);
        assert forall|i: int| 0 <= i < rest.len() implies !(#[trigger] rest[i]).contains(x) by {
            assert(rest[i] == pieces[i + 1]);
        }
        lemma_split_join(rest, x);
        lemma_split_once(pieces[0], x, text::join(rest, x));
        assert(seq![pieces[0]] + rest =~= pieces);
    }
}

} // verus!
