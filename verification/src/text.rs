//! Text as sequences of characters: searching, splitting, trimming and
//! comparing the way header fields are compared.
use vstd::prelude::*;

verus! {

/// The index of the first `x` in `s`, or the length of `s` where it holds none.
pub open spec fn find<T>(s: Seq<T>, x: T) -> int
    decreases s.len(),
{
    if s.len() == 0 || s[0] == x {
        0
    } else {
        1 + find(s.skip(1), x)
    }
}

/// What precedes the first `x` and what follows it, where `s` holds an `x`.
pub open spec fn split_once<T>(s: Seq<T>, x: T) -> Option<(Seq<T>, Seq<T>)> {
    if s.contains(x) {
        Some((s.take(find(s, x)), s.skip(find(s, x) + 1)))
    } else {
        None
    }
}

/// The pieces of `s` between one `x` and the next: always one more piece
/// than there are `x` in `s`.
pub open spec fn split<T>(s: Seq<T>, x: T) -> Seq<Seq<T>>
    decreases s.len(),
{
    if s.contains(x) {
        proof {
            lemma_find(s, x);
        }
        seq![s.take(find(s, x))] + split(s.skip(find(s, x) + 1), x)
    } else {
        seq![s]
    }
}

/// The pieces put together again, one `x` between each two.
pub open spec fn join<T>(pieces: Seq<Seq<T>>, x: T) -> Seq<T>
    decreases pieces.len(),
{
    if pieces.len() == 0 {
        seq![]
    } else if pieces.len() == 1 {
        pieces[0]
    } else {
        pieces[0] + seq![x] + join(pieces.skip(1), x)
    }
}

/// What follows `prefix` in `s`, where `s` begins with it.
pub open spec fn strip_prefix<T>(s: Seq<T>, prefix: Seq<T>) -> Option<Seq<T>> {
    if prefix.is_prefix_of(s) {
        Some(s.skip(prefix.len() as int))
    } else {
        None
    }
}

/// The characters that Unicode gives the property `White_Space`.
pub open spec fn is_space(c: char) -> bool {
    ||| '\t' <= c <= '\r'
    ||| c == ' '
    ||| c == '\u{85}'
    ||| c == '\u{a0}'
    ||| c == '\u{1680}'
    ||| '\u{2000}' <= c <= '\u{200a}'
    ||| c == '\u{2028}'
    ||| c == '\u{2029}'
    ||| c == '\u{202f}'
    ||| c == '\u{205f}'
    ||| c == '\u{3000}'
}

/// `s` without the leading characters that `drop` holds of.
pub open spec fn trim_start(s: Seq<char>, drop: spec_fn(char) -> bool) -> Seq<char>
    decreases s.len(),
{
    if s.len() > 0 && drop(s[0]) {
        trim_start(s.skip(1), drop)
    } else {
        s
    }
}

/// `s` without the trailing characters that `drop` holds of.
pub open spec fn trim_end(s: Seq<char>, drop: spec_fn(char) -> bool) -> Seq<char>
    decreases s.len(),
{
    if s.len() > 0 && drop(s.last()) {
        trim_end(s.drop_last(), drop)
    } else {
        s
    }
}

/// `s` without white space at either end.
pub open spec fn trim(s: Seq<char>) -> Seq<char> {
    trim_end(trim_start(s, |c: char| is_space(c)), |c: char| is_space(c))
}

/// `s` without angle brackets at either end.
pub open spec fn trim_angles(s: Seq<char>) -> Seq<char> {
    trim_end(trim_start(s, |c: char| is_angle(c)), |c: char| is_angle(c))
}

/// Whether `c` is an angle bracket.
pub open spec fn is_angle(c: char) -> bool {
    c == '<' || c == '>'
}

/// `c`, in lower case where it is a letter of ASCII.
pub open spec fn lower_char(c: char) -> char {
    if 'A' <= c <= 'Z' {
        ((c as u32 + 32) as u32) as char
    } else {
        c
    }
}

/// `s` with the letters of ASCII in lower case.
pub open spec fn lower(s: Seq<char>) -> Seq<char> {
    s.map_values(|c: char| lower_char(c))
}

/// `n` in decimal digits, without leading zeros.
pub open spec fn decimal(n: nat) -> Seq<char>
    decreases n,
{
    if n < 10 {
        seq![digit(n)]
    } else {
        decimal(n / 10).push(digit(n % 10))
    }
}

/// The digit of `n`, which is below ten.
pub open spec fn digit(n: nat) -> char {
    ((48 + n) as u32) as char
}

/// The first `x` is where `find` says, and none stands before it.
pub proof fn lemma_find<T>(s: Seq<T>, x: T)
    ensures
        0 <= find(s, x) <= s.len(),
        forall|j: int| 0 <= j < find(s, x) ==> s[j] != x,
        find(s, x) < s.len() ==> s[find(s, x)] == x,
        s.contains(x) <==> find(s, x) < s.len(),
    decreases s.len(),
{
    if s.len() > 0 && s[0] != x {
        let rest = s.skip(1);
        lemma_find(rest, x);
        assert forall|j: int| 0 <= j < find(s, x) implies s[j] != x by {
            if j > 0 {
                assert(rest[j - 1] == s[j]);
            }
        }
        if s.contains(x) {
            let j = choose|j: int| 0 <= j < s.len() && s[j] == x;
            assert(rest[j - 1] == x);
        }
    }
}

/// An index before which there is no `x`, and at which there is one or the
/// end, is the one that `find` gives.
pub proof fn lemma_found<T>(s: Seq<T>, x: T, i: int)
    requires
        0 <= i <= s.len(),
        forall|j: int| 0 <= j < i ==> s[j] != x,
        i < s.len() ==> s[i] == x,
    ensures
        find(s, x) == i,
{
    lemma_find(s, x);
    if find(s, x) < i {
        assert(s[find(s, x)] != x);
    }
}

/// There is always a piece.
pub proof fn lemma_split_len<T>(s: Seq<T>, x: T)
    ensures
        split(s, x).len() > 0,
{
}

/// The characters of `s`.
pub fn chars_of(s: &str) -> (chars: Vec<char>)
    ensures
        chars@ == s@,
{
    let mut chars: Vec<char> = Vec::new();
    for c in iter: s.chars()
        invariant
            chars@ =~= iter.seq().take(iter.index()),
            iter.seq() == s@,
    {
        chars.push(c);
    }
    chars
}

/// `String::push`: appends one character to the end of the text.
pub assume_specification[ String::push ](s: &mut String, c: char)
    ensures
        final(s)@ == old(s)@.push(c),
;

/// The text that `chars` spell.
pub fn text_of(chars: &[char]) -> (text: String)
    ensures
        text@ == chars@,
{
    let mut text = String::new();
    let mut i: usize = 0;
    while i < chars.len()
        invariant
            i <= chars@.len(),
            text@ =~= chars@.take(i as int),
        decreases chars@.len() - i,
    {
        text.push(chars[i]);
        i += 1;
    }
    text
}

/// The index of the first `x`, or the length where there is none.
pub fn find_char(s: &[char], x: char) -> (i: usize)
    ensures
        i == find(s@, x),
        i <= s@.len(),
        i < s@.len() <==> s@.contains(x),
{
    let mut i: usize = 0;
    while i < s.len() && s[i] != x
        invariant
            i <= s@.len(),
            forall|j: int| 0 <= j < i ==> s@[j] != x,
        decreases s@.len() - i,
    {
        i += 1;
    }
    proof {
        lemma_found(s@, x, i as int);
        lemma_find(s@, x);
    }
    i
}

/// The index of the first byte `x`, or the length where there is none.
pub fn find_byte(s: &[u8], x: u8) -> (i: usize)
    ensures
        i == find(s@, x),
        i <= s@.len(),
        i < s@.len() <==> s@.contains(x),
{
    let mut i: usize = 0;
    while i < s.len() && s[i] != x
        invariant
            i <= s@.len(),
            forall|j: int| 0 <= j < i ==> s@[j] != x,
        decreases s@.len() - i,
    {
        i += 1;
    }
    proof {
        lemma_found(s@, x, i as int);
        lemma_find(s@, x);
    }
    i
}

/// Whether `c` is white space.
pub fn is_space_char(c: char) -> (space: bool)
    ensures
        space == is_space(c),
{
    ('\t' <= c && c <= '\r') || c == ' ' || c == '\u{85}' || c == '\u{a0}' || c == '\u{1680}' || (
    '\u{2000}' <= c && c <= '\u{200a}') || c == '\u{2028}' || c == '\u{2029}' || c == '\u{202f}'
        || c == '\u{205f}' || c == '\u{3000}'
}

/// Whether `c` is an angle bracket.
fn is_angle_char(c: char) -> (angle: bool)
    ensures
        angle == is_angle(c),
{
    c == '<' || c == '>'
}

/// `s` without the characters at either end that `drops` picks, which are
/// those that `drop` holds of.
fn without<F: Fn(char) -> bool>(
    s: &[char],
    drops: F,
    Ghost(drop): Ghost<spec_fn(char) -> bool>,
) -> (t: &[char])
    requires
        forall|c: char| call_requires(drops, (c,)),
        forall|c: char, picked: bool| call_ensures(drops, (c,), picked) ==> picked == drop(c),
    ensures
        t@ == trim_end(trim_start(s@, drop), drop),
{
    let mut from: usize = 0;
    assert(s@.skip(0) =~= s@);
    while from < s.len() && drops(s[from])
        invariant
            from <= s@.len(),
            forall|c: char| call_requires(drops, (c,)),
            forall|c: char, picked: bool| call_ensures(drops, (c,), picked) ==> picked == drop(c),
            trim_start(s@.skip(from as int), drop) == trim_start(s@, drop),
        decreases s@.len() - from,
    {
        assert(s@.skip(from as int).skip(1) =~= s@.skip(from + 1));
        from += 1;
    }
    let ghost body = s@.skip(from as int);
    assert(trim_start(s@, drop) == body);
    let mut to: usize = s.len();
    assert(s@.subrange(from as int, to as int) =~= body);
    while to > from && drops(s[to - 1])
        invariant
            from <= to <= s@.len(),
            forall|c: char| call_requires(drops, (c,)),
            forall|c: char, picked: bool| call_ensures(drops, (c,), picked) ==> picked == drop(c),
            trim_end(s@.subrange(from as int, to as int), drop) == trim_end(body, drop),
        decreases to,
    {
        let ghost now = s@.subrange(from as int, to as int);
        assert(now.drop_last() =~= s@.subrange(from as int, to - 1));
        to -= 1;
    }
    &s[from..to]
}

/// `s` without white space at either end.
pub fn trimmed(s: &[char]) -> (t: &[char])
    ensures
        t@ == trim(s@),
{
    without(s, is_space_char, Ghost(|c: char| is_space(c)))
}

/// `s` without angle brackets at either end.
pub fn without_angles(s: &[char]) -> (t: &[char])
    ensures
        t@ == trim_angles(s@),
{
    without(s, is_angle_char, Ghost(|c: char| is_angle(c)))
}

/// `c`, in lower case where it is a letter of ASCII.
pub fn lowered_char(c: char) -> (l: char)
    ensures
        l == lower_char(c),
{
    if 'A' <= c && c <= 'Z' {
        ((c as u8) + 32) as char
    } else {
        c
    }
}

/// `s` with the letters of ASCII in lower case.
pub fn lowered(s: &[char]) -> (l: Vec<char>)
    ensures
        l@ == lower(s@),
{
    let mut l: Vec<char> = Vec::new();
    let mut i: usize = 0;
    while i < s.len()
        invariant
            i <= s@.len(),
            l@ =~= lower(s@.take(i as int)),
        decreases s@.len() - i,
    {
        l.push(lowered_char(s[i]));
        i += 1;
    }
    assert(s@.take(s@.len() as int) =~= s@);
    l
}

/// Appends `n` in decimal digits.
pub fn push_decimal(out: &mut String, n: u128)
    ensures
        final(out)@ == old(out)@ + decimal(n as nat),
    decreases n,
{
    if n >= 10 {
        push_decimal(out, n / 10);
    }
    let d: u8 = (n % 10) as u8;
    out.push((48 + d) as char);
    assert(out@ =~= old(out)@ + decimal(n as nat));
}

/// What follows `prefix` in `s`, where `s` begins with it.
pub fn after<'a>(s: &'a [char], prefix: &[char]) -> (rest: Option<&'a [char]>)
    ensures
        strip_prefix(s@, prefix@) == (match rest {
            Some(r) => Some(r@),
            None => None,
        }),
{
    if prefix.len() <= s.len() && same(&s[0..prefix.len()], prefix) {
        assert(prefix@ =~= s@.subrange(0, prefix@.len() as int));
        Some(&s[prefix.len()..s.len()])
    } else {
        assert(prefix@.is_prefix_of(s@) ==> s@.subrange(0, prefix@.len() as int) =~= prefix@);
        None
    }
}

/// An optional text as a mathematical value.
pub open spec fn optional(value: Option<String>) -> Option<Seq<char>> {
    match value {
        Some(s) => Some(s@),
        None => None,
    }
}

/// A copy of an optional text.
pub fn copied(value: Option<&str>) -> (copy: Option<String>)
    ensures
        optional(copy) == (match value {
            Some(s) => Some(s@),
            None => None,
        }),
{
    match value {
        Some(s) => Some(s.to_string()),
        None => None,
    }
}

/// Whether `a` and `b` spell the same characters.
pub fn same(a: &[char], b: &[char]) -> (equal: bool)
    ensures
        equal == (a@ == b@),
{
    if a.len() != b.len() {
        return false;
    }
    let mut i: usize = 0;
    while i < a.len()
        invariant
            i <= a@.len(),
            a@.len() == b@.len(),
            forall|j: int| 0 <= j < i ==> a@[j] == b@[j],
        decreases a@.len() - i,
    {
        if a[i] != b[i] {
            return false;
        }
        i += 1;
    }
    assert(a@ =~= b@);
    true
}

/// Whether `a` and `b` hold the same bytes.
pub fn same_bytes(a: &[u8], b: &[u8]) -> (equal: bool)
    ensures
        equal == (a@ == b@),
{
    if a.len() != b.len() {
        return false;
    }
    let mut i: usize = 0;
    while i < a.len()
        invariant
            i <= a@.len(),
            a@.len() == b@.len(),
            forall|j: int| 0 <= j < i ==> a@[j] == b@[j],
        decreases a@.len() - i,
    {
        if a[i] != b[i] {
            return false;
        }
        i += 1;
    }
    assert(a@ =~= b@);
    true
}

} // verus!
