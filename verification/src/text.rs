//! Text: the parts of string handling that the rest of the library is stated over.
//!
//! A text is a sequence of characters (`Seq<char>`, the view of `str` and `String`).
use vstd::prelude::*;
use vstd::string::*;

verus! {

/// Appends one character. `String::push` appends the given `char` to the end of the string.
pub assume_specification[ String::push ](s: &mut String, c: char)
    ensures
        final(s)@ == old(s)@.push(c),
;

/// The views of a sequence of values, in order.
pub open spec fn views<T: View>(s: Seq<T>) -> Seq<T::V> {
    s.map_values(|t: T| t@)
}

pub broadcast proof fn lemma_views_push<T: View>(s: Seq<T>, t: T)
    ensures
        #[trigger] views(s.push(t)) == views(s).push(t@),
{
    assert(views(s.push(t)) =~= views(s).push(t@));
}

pub broadcast proof fn lemma_views_add<T: View>(s: Seq<T>, t: Seq<T>)
    ensures
        #[trigger] views(s + t) == views(s) + views(t),
{
    assert(views(s + t) =~= views(s) + views(t));
}

/// Whether a character is white space: the Unicode property that `char::is_whitespace` reads.
pub open spec fn is_white(c: char) -> bool {
    ||| '\u{9}' <= c <= '\u{d}'
    ||| c == ' ' || c == '\u{85}' || c == '\u{a0}' || c == '\u{1680}'
    ||| '\u{2000}' <= c <= '\u{200a}'
    ||| c == '\u{2028}' || c == '\u{2029}' || c == '\u{202f}' || c == '\u{205f}' || c
        == '\u{3000}'
}

/// A text without the white space at its start.
pub open spec fn trim_start(s: Seq<char>) -> Seq<char>
    decreases s.len(),
{
    if s.len() > 0 && is_white(s[0]) {
        trim_start(s.drop_first())
    } else {
        s
    }
}

/// A text without the white space at its end.
pub open spec fn trim_end(s: Seq<char>) -> Seq<char>
    decreases s.len(),
{
    if s.len() > 0 && is_white(s.last()) {
        trim_end(s.drop_last())
    } else {
        s
    }
}

/// A text without the white space at either end.
pub open spec fn trimmed(s: Seq<char>) -> Seq<char> {
    trim_end(trim_start(s))
}

/// The first position of a character, or the length of the text where it does not occur.
pub open spec fn position(s: Seq<char>, c: char) -> nat
    decreases s.len(),
{
    if s.len() == 0 || s[0] == c {
        0
    } else {
        1 + position(s.drop_first(), c)
    }
}

pub proof fn lemma_position(s: Seq<char>, c: char)
    ensures
        0 <= position(s, c) <= s.len(),
        position(s, c) < s.len() ==> s[position(s, c) as int] == c,
        forall|j: int| 0 <= j < position(s, c) ==> s[j] != c,
    decreases s.len(),
{
    if s.len() > 0 && s[0] != c {
        lemma_position(s.drop_first(), c);
        assert forall|j: int| 0 <= j < position(s, c) implies s[j] != c by {
            if j > 0 {
                assert(s[j] == s.drop_first()[j - 1]);
            }
        }
    }
}

pub proof fn lemma_position_is(s: Seq<char>, c: char, k: int)
    requires
        0 <= k <= s.len(),
        k < s.len() ==> s[k] == c,
        forall|j: int| 0 <= j < k ==> s[j] != c,
    ensures
        position(s, c) == k,
{
    lemma_position(s, c);
    let p = position(s, c) as int;
    if p < k {
        assert(s[p] != c);
    }
}

/// The pieces of a text between the occurrences of a character.
pub open spec fn split(s: Seq<char>, c: char) -> Seq<Seq<char>>
    decreases s.len(),
{
    let k = position(s, c);
    if k < s.len() {
        seq![s.take(k as int)] + split(s.skip(k + 1int), c)
    } else {
        seq![s]
    }
}

/// The lines of a text: each ends at a line feed, which is left out together with a carriage
/// return in front of it; an empty rest is no line.
pub open spec fn lines(s: Seq<char>) -> Seq<Seq<char>>
    decreases s.len(),
{
    let k = position(s, '\n');
    if s.len() == 0 {
        Seq::empty()
    } else if k < s.len() {
        seq![without_return(s.take(k as int))] + lines(s.skip(k + 1int))
    } else {
        seq![s]
    }
}

/// A text without one carriage return at its end.
pub open spec fn without_return(s: Seq<char>) -> Seq<char> {
    if s.len() > 0 && s.last() == '\r' {
        s.drop_last()
    } else {
        s
    }
}

/// Whether a text occurs in another.
pub open spec fn occurs(part: Seq<char>, s: Seq<char>) -> bool {
    exists|i: int|
        0 <= i && i + part.len() <= s.len() && #[trigger] s.subrange(i, i + part.len()) == part
}

/// A text with each occurrence of a character replaced by a text.
pub open spec fn replaced(s: Seq<char>, c: char, by: Seq<char>) -> Seq<char>
    decreases s.len(),
{
    if s.len() == 0 {
        s
    } else {
        replaced(s.drop_last(), c, by) + if s.last() == c {
            by
        } else {
            seq![s.last()]
        }
    }
}

/// The ASCII lower case of a character.
pub open spec fn lower_ascii(c: char) -> char {
    if 'A' <= c <= 'Z' {
        ((c as u8 + 32) as u8) as char
    } else {
        c
    }
}

/// A text in ASCII lower case.
pub open spec fn lower(s: Seq<char>) -> Seq<char> {
    s.map_values(|c: char| lower_ascii(c))
}

/// The ASCII upper case of a character.
pub open spec fn upper_ascii(c: char) -> char {
    if 'a' <= c <= 'z' {
        ((c as u8 - 32) as u8) as char
    } else {
        c
    }
}

/// A text in ASCII upper case.
pub open spec fn upper(s: Seq<char>) -> Seq<char> {
    s.map_values(|c: char| upper_ascii(c))
}

/// Whether a text is all ASCII.
pub open spec fn is_ascii(s: Seq<char>) -> bool {
    forall|i: int| 0 <= i < s.len() ==> (#[trigger] s[i]) < '\u{80}'
}

/// Whether a text occurs in another, whatever the case of ASCII letters.
pub open spec fn occurs_in_any_case(query: Seq<char>, s: Seq<char>) -> bool {
    exists|part: Seq<char>| #[trigger] occurs(part, s) && lower(part) == lower(query)
}

/// Upper case goes with lower case.
pub proof fn lemma_case_is_lost(s: Seq<char>)
    ensures
        lower(upper(s)) == lower(s),
        is_ascii(upper(s)) == is_ascii(s),
{
    assert forall|i: int| 0 <= i < s.len() implies (#[trigger] upper(s)[i] < '\u{80}') == (s[i]
        < '\u{80}') by {}
    if is_ascii(upper(s)) {
        assert forall|i: int| 0 <= i < s.len() implies (#[trigger] s[i]) < '\u{80}' by {
            assert(upper(s)[i] < '\u{80}');
        }
    }
    assert(lower(upper(s)) =~= lower(s));
}

/// What differs from an ASCII text in case alone is ASCII.
pub proof fn lemma_ascii_in_any_case(part: Seq<char>, query: Seq<char>)
    requires
        lower(part) == lower(query),
        is_ascii(query),
    ensures
        is_ascii(part),
{
    assert(lower(part).len() == part.len() && lower(query).len() == query.len());
    assert forall|i: int| 0 <= i < part.len() implies (#[trigger] part[i]) < '\u{80}' by {
        assert(lower(part)[i] == lower_ascii(part[i]));
        assert(lower(query)[i] == lower_ascii(query[i]));
        assert(query[i] < '\u{80}');
    }
}

/// A text occurs in itself.
pub proof fn lemma_occurs_itself(s: Seq<char>)
    ensures
        occurs(s, s),
{
    assert(s.subrange(0, 0int + s.len()) =~= s);
}

/// What occurs in a text occurs in what holds the text.
pub proof fn lemma_occurs_within(part: Seq<char>, front: Seq<char>, s: Seq<char>, rest: Seq<char>)
    requires
        occurs(part, s),
    ensures
        occurs(part, front + s + rest),
{
    let i = choose|i: int|
        0 <= i && i + part.len() <= s.len() && #[trigger] s.subrange(i, i + part.len()) == part;
    let k = front.len() + i;
    assert((front + s + rest).subrange(k, k + part.len()) =~= s.subrange(i, i + part.len()));
}

pub proof fn lemma_occurs_in_any_case_within(
    query: Seq<char>,
    front: Seq<char>,
    s: Seq<char>,
    rest: Seq<char>,
)
    requires
        occurs_in_any_case(query, s),
    ensures
        occurs_in_any_case(query, front + s + rest),
{
    let part = choose|part: Seq<char>| #[trigger] occurs(part, s) && lower(part) == lower(query);
    lemma_occurs_within(part, front, s, rest);
}

/// What occurs in a text occurs wherever the text does.
pub proof fn lemma_occurs_in_any_case_transitive(query: Seq<char>, s: Seq<char>, whole: Seq<char>)
    requires
        occurs_in_any_case(query, s),
        occurs(s, whole),
    ensures
        occurs_in_any_case(query, whole),
{
    let i = choose|i: int|
        0 <= i && i + s.len() <= whole.len() && #[trigger] whole.subrange(i, i + s.len()) == s;
    let front = whole.subrange(0, i);
    let rest = whole.subrange(i + s.len(), whole.len() as int);
    assert(whole =~= front + s + rest);
    lemma_occurs_in_any_case_within(query, front, s, rest);
}

pub open spec fn is_digit(c: char) -> bool {
    '0' <= c <= '9'
}

pub open spec fn is_hex_digit(c: char) -> bool {
    '0' <= c <= '9' || 'a' <= c <= 'f' || 'A' <= c <= 'F'
}

pub open spec fn is_alphanumeric(c: char) -> bool {
    '0' <= c <= '9' || 'a' <= c <= 'z' || 'A' <= c <= 'Z'
}

/// The decimal digit for a number below ten.
pub open spec fn digit(n: nat) -> char {
    (('0' as u8) + n) as u8 as char
}

/// A number in decimal, without leading zeros.
pub open spec fn decimal(n: nat) -> Seq<char>
    decreases n,
{
    if n < 10 {
        seq![digit(n)]
    } else {
        decimal(n / 10).push(digit(n % 10))
    }
}

/// The number that a text of decimal digits stands for.
pub open spec fn number(s: Seq<char>) -> nat
    decreases s.len(),
{
    if s.len() == 0 {
        0
    } else {
        (10 * number(s.drop_last()) + (s.last() as int - '0' as int)) as nat
    }
}

/// Whether a text holds decimal digits alone.
pub open spec fn all_digits(s: Seq<char>) -> bool {
    forall|i: int| 0 <= i < s.len() ==> is_digit(#[trigger] s[i])
}

/// A text without a plus sign at its start.
pub open spec fn unsigned_part(s: Seq<char>) -> Seq<char> {
    if s.len() > 0 && s[0] == '+' {
        s.drop_first()
    } else {
        s
    }
}

/// The `u64` that a text reads as: decimal digits, at least one, after an optional plus sign.
pub open spec fn parse_u64(s: Seq<char>) -> Option<u64> {
    let d = unsigned_part(s);
    if d.len() > 0 && all_digits(d) && number(d) <= u64::MAX {
        Some(number(d) as u64)
    } else {
        None
    }
}

/// The first word of a text: what stands before the second stretch of white space.
pub open spec fn first_word(s: Seq<char>) -> Option<Seq<char>> {
    let t = trim_start(s);
    if t.len() == 0 {
        None
    } else {
        Some(t.take(white_position(t)))
    }
}

/// The first position of white space, or the length of the text where there is none.
pub open spec fn white_position(s: Seq<char>) -> int
    decreases s.len(),
{
    if s.len() == 0 || is_white(s[0]) {
        0
    } else {
        1 + white_position(s.drop_first())
    }
}

/// Whether two texts are the same.
pub fn same(a: &str, b: &str) -> (r: bool)
    ensures
        r == (a@ == b@),
{
    a.to_owned() == b.to_owned()
}

/// The characters of a text.
pub fn chars_of(s: &str) -> (r: Vec<char>)
    ensures
        r@ == s@,
{
    let mut out: Vec<char> = Vec::new();
    for c in it: s.chars()
        invariant
            out@ == s@.take(it.index()),
            it.seq() == s@,
    {
        out.push(c);
    }
    out
}

/// The text of a stretch of characters.
pub fn slice(chars: &Vec<char>, from: usize, to: usize) -> (r: String)
    requires
        from <= to <= chars@.len(),
    ensures
        r@ == chars@.subrange(from as int, to as int),
{
    let mut out = String::new();
    let mut i: usize = from;
    while i < to
        invariant
            from <= i <= to <= chars@.len(),
            out@ == chars@.subrange(from as int, i as int),
        decreases to - i,
    {
        out.push(chars[i]);
        i += 1;
        assert(chars@.subrange(from as int, i as int) =~= chars@.subrange(
            from as int,
            i - 1,
        ).push(chars@[i - 1]));
    }
    out
}

/// One text after another.
pub fn concat2(a: &str, b: &str) -> (r: String)
    ensures
        r@ == a@ + b@,
{
    let mut s = a.to_owned();
    s.append(b);
    s
}

/// Three texts in a row.
pub fn concat3(a: &str, b: &str, c: &str) -> (r: String)
    ensures
        r@ == a@ + b@ + c@,
{
    let mut s = a.to_owned();
    s.append(b);
    s.append(c);
    s
}

/// Four texts in a row.
pub fn concat4(a: &str, b: &str, c: &str, d: &str) -> (r: String)
    ensures
        r@ == a@ + b@ + c@ + d@,
{
    let mut s = concat3(a, b, c);
    s.append(d);
    s
}

/// Five texts in a row.
pub fn concat5(a: &str, b: &str, c: &str, d: &str, e: &str) -> (r: String)
    ensures
        r@ == a@ + b@ + c@ + d@ + e@,
{
    let mut s = concat4(a, b, c, d);
    s.append(e);
    s
}

pub fn white(c: char) -> (r: bool)
    ensures
        r == is_white(c),
{
    ('\u{9}' <= c && c <= '\u{d}') || c == ' ' || c == '\u{85}' || c == '\u{a0}' || c == '\u{1680}'
        || ('\u{2000}' <= c && c <= '\u{200a}') || c == '\u{2028}' || c == '\u{2029}' || c
        == '\u{202f}' || c == '\u{205f}' || c == '\u{3000}'
}

/// A text without the white space at either end.
pub fn trim(s: &str) -> (r: String)
    ensures
        r@ == trimmed(s@),
{
    let chars = chars_of(s);
    let n = chars.len();
    let mut a: usize = 0;
    assert(chars@.skip(0) =~= chars@);
    while a < n && white(chars[a])
        invariant
            a <= n == chars@.len(),
            trim_start(chars@.skip(a as int)) == trim_start(chars@),
        decreases n - a,
    {
        assert(chars@.skip(a as int).drop_first() =~= chars@.skip(a + 1));
        a += 1;
    }
    let ghost t = chars@.skip(a as int);
    assert(t =~= chars@.subrange(a as int, n as int));
    let mut b: usize = n;
    while b > a && white(chars[b - 1])
        invariant
            a <= b <= n == chars@.len(),
            t == trim_start(chars@),
            trim_end(chars@.subrange(a as int, b as int)) == trim_end(t),
        decreases b,
    {
        assert(chars@.subrange(a as int, b as int).drop_last() =~= chars@.subrange(
            a as int,
            b - 1,
        ));
        b -= 1;
    }
    slice(&chars, a, b)
}

/// The first position of a character at or after a start, or the length.
pub fn find_from(chars: &Vec<char>, from: usize, c: char) -> (r: usize)
    requires
        from <= chars@.len(),
    ensures
        from <= r <= chars@.len(),
        r == from + position(chars@.skip(from as int), c),
{
    let mut i: usize = from;
    while i < chars.len() && chars[i] != c
        invariant
            from <= i <= chars@.len(),
            forall|j: int| from <= j < i ==> chars@[j] != c,
        decreases chars@.len() - i,
    {
        i += 1;
    }
    proof {
        lemma_position_is(chars@.skip(from as int), c, i - from);
    }
    i
}

/// The lines of a text.
pub fn lines_of(s: &str) -> (r: Vec<String>)
    ensures
        views(r@) == lines(s@),
{
    broadcast use lemma_views_push;

    let chars = chars_of(s);
    let n = chars.len();
    let mut out: Vec<String> = Vec::new();
    let mut at: usize = 0;
    assert(views(out@) =~= Seq::<Seq<char>>::empty());
    assert(chars@.skip(0) =~= chars@);
    assert(views(out@) + lines(chars@) =~= lines(chars@));
    while at < n
        invariant
            at <= n == chars@.len(),
            views(out@) + lines(chars@.skip(at as int)) == lines(chars@),
        decreases n - at,
    {
        let end = find_from(&chars, at, '\n');
        let ghost rest = chars@.skip(at as int);
        let ghost before = views(out@);
        proof {
            lemma_position(rest, '\n');
            assert(rest.take(end - at) =~= chars@.subrange(at as int, end as int));
        }
        if end < n {
            let stop = if end > at && chars[end - 1] == '\r' {
                end - 1
            } else {
                end
            };
            let line = slice(&chars, at, stop);
            assert(line@ =~= without_return(rest.take(end - at)));
            assert(rest.skip(end - at + 1) =~= chars@.skip(end + 1));
            assert(lines(rest) == seq![line@] + lines(chars@.skip(end + 1)));
            out.push(line);
            at = end + 1;
        } else {
            let line = slice(&chars, at, end);
            assert(line@ =~= rest);
            assert(lines(rest) == seq![line@]);
            out.push(line);
            at = end;
            assert(chars@.skip(at as int) =~= Seq::<char>::empty());
        }
        assert(before.push(out@.last()@) + lines(chars@.skip(at as int)) =~= before + lines(rest));
    }
    assert(chars@.skip(at as int) =~= Seq::<char>::empty());
    assert(views(out@) + lines(chars@.skip(at as int)) =~= views(out@));
    out
}

/// The pieces of a text between the occurrences of a character.
pub fn split_of(s: &str, c: char) -> (r: Vec<String>)
    ensures
        views(r@) == split(s@, c),
{
    broadcast use lemma_views_push;

    let chars = chars_of(s);
    let n = chars.len();
    let mut out: Vec<String> = Vec::new();
    let mut at: usize = 0;
    assert(views(out@) =~= Seq::<Seq<char>>::empty());
    assert(chars@.skip(0) =~= chars@);
    assert(views(out@) + split(chars@, c) =~= split(chars@, c));
    loop
        invariant_except_break
            at <= n == chars@.len(),
            views(out@) + split(chars@.skip(at as int), c) == split(chars@, c),
        ensures
            views(out@) == split(chars@, c),
        decreases n - at,
    {
        let end = find_from(&chars, at, c);
        let ghost rest = chars@.skip(at as int);
        let ghost before = views(out@);
        proof {
            lemma_position(rest, c);
            assert(rest.take(end - at) =~= chars@.subrange(at as int, end as int));
        }
        let piece = slice(&chars, at, end);
        if end < n {
            assert(rest.skip(end - at + 1) =~= chars@.skip(end + 1));
            assert(split(rest, c) == seq![piece@] + split(chars@.skip(end + 1), c));
            out.push(piece);
            at = end + 1;
            assert(before.push(out@.last()@) + split(chars@.skip(at as int), c) =~= before + split(
                rest,
                c,
            ));
        } else {
            assert(piece@ =~= rest);
            out.push(piece);
            assert(views(out@) =~= before + split(rest, c));
            break;
        }
    }
    out
}

/// Whether a text starts with another.
pub fn starts(s: &str, prefix: &str) -> (r: bool)
    ensures
        r == prefix@.is_prefix_of(s@),
{
    let a = chars_of(s);
    let b = chars_of(prefix);
    if b.len() > a.len() {
        return false;
    }
    let mut i: usize = 0;
    while i < b.len()
        invariant
            i <= b@.len() <= a@.len(),
            a@ == s@,
            b@ == prefix@,
            forall|j: int| 0 <= j < i ==> a@[j] == b@[j],
        decreases b@.len() - i,
    {
        if a[i] != b[i] {
            assert(s@.subrange(0, prefix@.len() as int)[i as int] != prefix@[i as int]);
            return false;
        }
        i += 1;
    }
    assert(s@.subrange(0, prefix@.len() as int) =~= prefix@);
    true
}

/// Whether a text ends with another.
pub fn ends(s: &str, suffix: &str) -> (r: bool)
    ensures
        r == suffix@.is_suffix_of(s@),
{
    let a = chars_of(s);
    let b = chars_of(suffix);
    if b.len() > a.len() {
        return false;
    }
    let n = a.len();
    let d = n - b.len();
    let mut i: usize = 0;
    while i < b.len()
        invariant
            n == a@.len(),
            i <= b@.len() <= a@.len(),
            d == a@.len() - b@.len(),
            a@ == s@,
            b@ == suffix@,
            forall|j: int| 0 <= j < i ==> a@[d + j] == b@[j],
        decreases b@.len() - i,
    {
        if a[d + i] != b[i] {
            assert(s@.subrange(d as int, s@.len() as int)[i as int] != suffix@[i as int]);
            return false;
        }
        i += 1;
    }
    assert(s@.subrange(d as int, s@.len() as int) =~= suffix@);
    true
}

/// What follows a prefix, where the text has it.
pub fn after_prefix(s: &str, prefix: &str) -> (r: Option<String>)
    ensures
        r is Some <==> prefix@.is_prefix_of(s@),
        r is Some ==> r->0@ == s@.skip(prefix@.len() as int),
{
    if starts(s, prefix) {
        let chars = chars_of(s);
        let from = chars_of(prefix).len();
        let out = slice(&chars, from, chars.len());
        assert(out@ =~= s@.skip(prefix@.len() as int));
        Some(out)
    } else {
        None
    }
}

/// What precedes a suffix, where the text has it.
pub fn before_suffix(s: &str, suffix: &str) -> (r: Option<String>)
    ensures
        r is Some <==> suffix@.is_suffix_of(s@),
        r is Some ==> r->0@ == s@.take(s@.len() - suffix@.len()),
{
    if ends(s, suffix) {
        let chars = chars_of(s);
        let to = chars.len() - chars_of(suffix).len();
        let out = slice(&chars, 0, to);
        assert(out@ =~= s@.take(s@.len() - suffix@.len()));
        Some(out)
    } else {
        None
    }
}

/// Whether a text occurs in another.
pub fn contains(s: &str, part: &str) -> (r: bool)
    ensures
        r == occurs(part@, s@),
{
    let a = chars_of(s);
    let b = chars_of(part);
    if b.len() > a.len() {
        return false;
    }
    let n = a.len();
    let last = n - b.len();
    let mut i: usize = 0;
    while i <= last
        invariant
            n == a@.len(),
            i <= last + 1,
            last == a@.len() - b@.len(),
            a@ == s@,
            b@ == part@,
            forall|k: int| 0 <= k < i ==> #[trigger] s@.subrange(k, k + part@.len()) != part@,
        decreases last + 1 - i,
    {
        let mut j: usize = 0;
        while j < b.len() && a[i + j] == b[j]
            invariant
                n == a@.len(),
                i <= last,
                j <= b@.len(),
                last == a@.len() - b@.len(),
                forall|k: int| 0 <= k < j ==> a@[i + k] == b@[k],
            decreases b@.len() - j,
        {
            j += 1;
        }
        if j == b.len() {
            assert(s@.subrange(i as int, i + part@.len()) =~= part@);
            return true;
        }
        assert(s@.subrange(i as int, i + part@.len())[j as int] != part@[j as int]);
        if i == last {
            return false;
        }
        i += 1;
    }
    false
}

/// A text with each occurrence of a character replaced by a text.
pub fn replace(s: &str, c: char, by: &str) -> (r: String)
    ensures
        r@ == replaced(s@, c, by@),
{
    let chars = chars_of(s);
    let mut out = String::new();
    let mut i: usize = 0;
    while i < chars.len()
        invariant
            i <= chars@.len(),
            out@ == replaced(chars@.take(i as int), c, by@),
        decreases chars@.len() - i,
    {
        let ghost before = out@;
        if chars[i] == c {
            out.append(by);
        } else {
            out.push(chars[i]);
            assert(out@ =~= before + seq![chars@[i as int]]);
        }
        assert(chars@.take(i + 1).drop_last() =~= chars@.take(i as int));
        i += 1;
    }
    assert(chars@.take(i as int) =~= chars@);
    out
}

/// A text in ASCII lower case.
pub fn to_lower_ascii(s: &str) -> (r: String)
    ensures
        r@ == lower(s@),
{
    let chars = chars_of(s);
    let mut out = String::new();
    let mut i: usize = 0;
    while i < chars.len()
        invariant
            i <= chars@.len(),
            out@ == chars@.take(i as int).map_values(|c: char| lower_ascii(c)),
        decreases chars@.len() - i,
    {
        let c = chars[i];
        let l = if 'A' <= c && c <= 'Z' {
            (c as u8 + 32u8) as char
        } else {
            c
        };
        out.push(l);
        assert(chars@.take(i + 1) =~= chars@.take(i as int).push(c));
        assert(out@ =~= chars@.take(i + 1).map_values(|c: char| lower_ascii(c)));
        i += 1;
    }
    assert(chars@.take(i as int) =~= chars@);
    out
}

/// A number in decimal.
pub fn decimal_of(n: u64) -> (r: String)
    ensures
        r@ == decimal(n as nat),
    decreases n,
{
    let d = (('0' as u8) + (n % 10) as u8) as char;
    if n < 10 {
        let mut s = String::new();
        s.push(d);
        assert(s@ =~= seq![d]);
        s
    } else {
        let mut s = decimal_of(n / 10);
        s.push(d);
        s
    }
}

proof fn lemma_number_prefix(s: Seq<char>, k: int)
    requires
        0 <= k <= s.len(),
        all_digits(s),
    ensures
        number(s.take(k)) <= number(s),
    decreases s.len() - k,
{
    if k < s.len() {
        lemma_number_prefix(s, k + 1);
        assert(s.take(k + 1).drop_last() =~= s.take(k));
        assert(is_digit(s[k]));
    } else {
        assert(s.take(k) =~= s);
    }
}

/// Reads a `u64`.
pub fn read_u64(s: &str) -> (r: Option<u64>)
    ensures
        r == parse_u64(s@),
{
    let chars = chars_of(s);
    let from: usize = if chars.len() > 0 && chars[0] == '+' {
        1
    } else {
        0
    };
    let ghost d = chars@.skip(from as int);
    assert(d =~= unsigned_part(s@));
    if from == chars.len() {
        return None;
    }
    let mut value: u64 = 0;
    let mut i: usize = from;
    while i < chars.len()
        invariant
            from <= i <= chars@.len(),
            chars@ == s@,
            d == chars@.skip(from as int),
            value == number(d.take(i - from)),
            forall|j: int| 0 <= j < i - from ==> is_digit(#[trigger] d[j]),
            d == unsigned_part(s@),
        decreases chars@.len() - i,
    {
        let c = chars[i];
        assert(d[i - from] == c);
        if c < '0' || c > '9' {
            assert(!is_digit(d[i - from]));
            return None;
        }
        let ghost next = d.take(i - from + 1);
        assert(next.drop_last() =~= d.take(i - from));
        let v = (c as u8 - '0' as u8) as u64;
        assert(number(next) == 10 * value + v);
        let ten = match value.checked_mul(10) {
            Some(t) => t,
            None => {
                proof {
                    if all_digits(d) {
                        lemma_number_prefix(d, i - from + 1);
                    }
                }
                return None;
            },
        };
        value = match ten.checked_add(v) {
            Some(t) => t,
            None => {
                proof {
                    if all_digits(d) {
                        lemma_number_prefix(d, i - from + 1);
                    }
                }
                return None;
            },
        };
        i += 1;
    }
    assert(d.take(i - from) =~= d);
    Some(value)
}

/// The first word of a text.
pub fn word(s: &str) -> (r: Option<String>)
    ensures
        r is Some <==> first_word(s@) is Some,
        r is Some ==> r->0@ == first_word(s@)->0,
{
    let chars = chars_of(s);
    let n = chars.len();
    let mut a: usize = 0;
    assert(chars@.skip(0) =~= chars@);
    while a < n && white(chars[a])
        invariant
            a <= n == chars@.len(),
            trim_start(chars@.skip(a as int)) == trim_start(chars@),
        decreases n - a,
    {
        assert(chars@.skip(a as int).drop_first() =~= chars@.skip(a + 1));
        a += 1;
    }
    let ghost t = chars@.skip(a as int);
    if a == n {
        return None;
    }
    let mut b: usize = a;
    while b < n && !white(chars[b])
        invariant
            a <= b <= n == chars@.len(),
            t == chars@.skip(a as int),
            b - a + white_position(chars@.skip(b as int)) == white_position(t),
        decreases n - b,
    {
        assert(chars@.skip(b as int).drop_first() =~= chars@.skip(b + 1));
        b += 1;
    }
    let w = slice(&chars, a, b);
    assert(w@ =~= t.take(b - a));
    Some(w)
}

/// Whether a text is among owned texts.
pub fn is_among(s: &str, list: &Vec<String>) -> (r: bool)
    ensures
        r == views(list@).contains(s@),
{
    let mut i: usize = 0;
    while i < list.len()
        invariant
            i <= list@.len(),
            forall|j: int| 0 <= j < i ==> list@[j]@ != s@,
        decreases list@.len() - i,
    {
        if same(list[i].as_str(), s) {
            assert(views(list@)[i as int] == s@);
            return true;
        }
        i += 1;
    }
    assert forall|j: int| 0 <= j < views(list@).len() implies views(list@)[j] != s@ by {
        assert(views(list@)[j] == list@[j]@);
    }
    false
}

/// Copies a list of texts.
pub fn copy_texts(list: &Vec<String>) -> (r: Vec<String>)
    ensures
        views(r@) == views(list@),
        r@.len() == list@.len(),
{
    let mut out: Vec<String> = Vec::new();
    let mut i: usize = 0;
    while i < list.len()
        invariant
            i <= list@.len(),
            out@.len() == i,
            forall|j: int| 0 <= j < i ==> out@[j]@ == list@[j]@,
        decreases list@.len() - i,
    {
        out.push(list[i].clone());
        i += 1;
    }
    assert(views(out@) =~= views(list@));
    out
}

/// A text with each occurrence of a part replaced, from the left and without overlap.
pub open spec fn swapped(s: Seq<char>, part: Seq<char>, by: Seq<char>) -> Seq<char>
    decreases s.len(),
{
    if s.len() == 0 || part.len() == 0 {
        s
    } else if part.is_prefix_of(s) {
        by + swapped(s.skip(part.len() as int), part, by)
    } else {
        seq![s[0]] + swapped(s.skip(1), part, by)
    }
}

/// A text with each occurrence of a part replaced.
pub fn swap(s: &str, part: &str, by: &str) -> (r: String)
    ensures
        r@ == swapped(s@, part@, by@),
{
    if part.is_empty() {
        assert(part@.len() == 0);
        return s.to_owned();
    }
    let chars = chars_of(s);
    let p = chars_of(part);
    let n = chars.len();
    let m = p.len();
    let mut out = String::new();
    let mut i: usize = 0;
    assert(chars@.skip(0) =~= chars@);
    assert(out@ + swapped(s@, part@, by@) =~= swapped(s@, part@, by@));
    while i < n
        invariant
            i <= n,
            n == chars@.len(),
            m == p@.len(),
            m > 0,
            chars@ == s@,
            p@ == part@,
            out@ + swapped(chars@.skip(i as int), part@, by@) == swapped(s@, part@, by@),
        decreases n - i,
    {
        let ghost rest = chars@.skip(i as int);
        let ghost before = out@;
        if n - i >= m && same_from(&chars, i, &p) {
            assert(part@.is_prefix_of(rest));
            assert(rest.skip(part@.len() as int) =~= chars@.skip(i + m));
            out.append(by);
            assert(before + (by@ + swapped(chars@.skip(i + m), part@, by@)) =~= out@ + swapped(
                chars@.skip(i + m),
                part@,
                by@,
            ));
            i = i + m;
        } else {
            assert(!part@.is_prefix_of(rest));
            assert(rest.skip(1) =~= chars@.skip(i + 1));
            let c = chars[i];
            out.push(c);
            assert(before + (seq![c] + swapped(chars@.skip(i + 1), part@, by@)) =~= out@ + swapped(
                chars@.skip(i + 1),
                part@,
                by@,
            ));
            i = i + 1;
        }
    }
    assert(chars@.skip(i as int).len() == 0);
    assert(out@ + swapped(chars@.skip(i as int), part@, by@) =~= out@);
    out
}

/// Whether a part stands at a position.
fn same_from(chars: &Vec<char>, from: usize, part: &Vec<char>) -> (r: bool)
    requires
        from + part@.len() <= chars@.len(),
    ensures
        r == part@.is_prefix_of(chars@.skip(from as int)),
{
    let ghost rest = chars@.skip(from as int);
    let n = chars.len();
    let mut j: usize = 0;
    while j < part.len()
        invariant
            j <= part@.len(),
            n == chars@.len(),
            from + part@.len() <= chars@.len(),
            rest == chars@.skip(from as int),
            forall|k: int| 0 <= k < j ==> rest[k] == part@[k],
        decreases part@.len() - j,
    {
        if chars[from + j] != part[j] {
            assert(rest.subrange(0, part@.len() as int)[j as int] != part@[j as int]);
            return false;
        }
        j += 1;
    }
    assert(rest.subrange(0, part@.len() as int) =~= part@);
    true
}

/// So many spaces.
pub open spec fn spaces(n: nat) -> Seq<char> {
    Seq::new(n, |i: int| ' ')
}

pub fn spaces_of(n: usize) -> (r: String)
    ensures
        r@ == spaces(n as nat),
{
    let mut out = String::new();
    let mut i: usize = 0;
    while i < n
        invariant
            i <= n,
            out@ =~= spaces(i as nat),
        decreases n - i,
    {
        out.push(' ');
        i += 1;
    }
    out
}

/// A text filled up with spaces at its end.
pub open spec fn padded(s: Seq<char>, width: nat) -> Seq<char> {
    if s.len() < width {
        s + spaces((width - s.len()) as nat)
    } else {
        s
    }
}

pub fn pad(s: &str, width: usize) -> (r: String)
    ensures
        r@ == padded(s@, width as nat),
{
    let n = chars_of(s).len();
    if n < width {
        concat2(s, spaces_of(width - n).as_str())
    } else {
        s.to_owned()
    }
}

/// The numbers by which a text is ordered.
pub open spec fn codes(s: Seq<char>) -> Seq<u32> {
    s.map_values(|c: char| c as u32)
}

pub fn codes_of(s: &str) -> (r: Vec<u32>)
    ensures
        r@ == codes(s@),
{
    let chars = chars_of(s);
    let mut out: Vec<u32> = Vec::new();
    let mut i: usize = 0;
    while i < chars.len()
        invariant
            i <= chars@.len(),
            out@ =~= codes(chars@.take(i as int)),
        decreases chars@.len() - i,
    {
        out.push(chars[i] as u32);
        i += 1;
    }
    assert(chars@.take(i as int) =~= chars@);
    out
}

/// A list of one text.
pub fn list1(a: String) -> (r: Vec<String>)
    ensures
        views(r@) == seq![a@],
{
    let r = vec![a];
    assert(views(r@) =~= seq![a@]);
    r
}

/// A list of two texts.
pub fn list2(a: String, b: String) -> (r: Vec<String>)
    ensures
        views(r@) == seq![a@, b@],
{
    let r = vec![a, b];
    assert(views(r@) =~= seq![a@, b@]);
    r
}

/// A list of three texts.
pub fn list3(a: String, b: String, c: String) -> (r: Vec<String>)
    ensures
        views(r@) == seq![a@, b@, c@],
{
    let r = vec![a, b, c];
    assert(views(r@) =~= seq![a@, b@, c@]);
    r
}

/// A list of four texts.
pub fn list4(a: String, b: String, c: String, d: String) -> (r: Vec<String>)
    ensures
        views(r@) == seq![a@, b@, c@, d@],
{
    let r = vec![a, b, c, d];
    assert(views(r@) =~= seq![a@, b@, c@, d@]);
    r
}

} // verus!
