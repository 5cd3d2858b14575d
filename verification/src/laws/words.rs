//! How text, paths and documents are read.
use crate::filesystem;
use crate::json;
use crate::json::Json;
use crate::order;
use crate::path;
use crate::path::Part;
use crate::text;
use vstd::prelude::*;

verus! {

/// A text is read line by line: each ends at its break, with or without a carriage return before it,
/// and what follows the last break is a line where there is something.
pub proof fn law_lines_end_at_their_breaks(a: Seq<char>, b: Seq<char>)
    requires
        !a.contains('\n'),
    ensures
        text::lines(a + seq!['\n'] + b) == seq![
            if a.len() > 0 && a.last() == '\r' {
                a.drop_last()
            } else {
                a
            },
        ] + text::lines(b),
        text::lines(a) == (if a.len() == 0 {
            Seq::empty()
        } else {
            seq![a]
        }),
{
    let s = a + seq!['\n'] + b;
    assert forall|j: int| 0 <= j < a.len() implies a[j] != '\n' by {
        if a[j] == '\n' {
            assert(a.contains('\n'));
        }
    }
    text::lemma_position_is(s, '\n', a.len() as int);
    assert(s.take(a.len() as int) =~= a);
    assert(s.skip(a.len() + 1int) =~= b);
    text::lemma_position_is(a, '\n', a.len() as int);
}

/// Pieces, put together again with a separator.
pub open spec fn glued(pieces: Seq<Seq<char>>, c: char) -> Seq<char>
    decreases pieces.len(),
{
    if pieces.len() == 0 {
        Seq::empty()
    } else if pieces.len() == 1 {
        pieces[0]
    } else {
        pieces[0] + seq![c] + glued(pieces.drop_first(), c)
    }
}

/// Splitting loses nothing: the pieces hold no separator, and together with the separators between
/// them they are the text.
pub proof fn law_pieces_make_the_text(s: Seq<char>, c: char)
    ensures
        glued(text::split(s, c), c) == s,
        text::split(s, c).len() >= 1,
        forall|i: int|
            0 <= i < text::split(s, c).len() ==> !(#[trigger] text::split(s, c)[i]).contains(c),
    decreases s.len(),
{
    let k = text::position(s, c);
    let pieces = text::split(s, c);
    text::lemma_position(s, c);
    if k < s.len() {
        let rest = s.skip(k + 1int);
        law_pieces_make_the_text(rest, c);
        assert(pieces.drop_first() =~= text::split(rest, c));
        assert(s =~= s.take(k as int) + seq![c] + rest);
        assert(pieces.len() >= 2);
        assert(pieces[0] == s.take(k as int));
        assert forall|i: int| 0 <= i < pieces.len() implies !(#[trigger] pieces[i]).contains(c) by {
            if i > 0 {
                assert(pieces[i] == text::split(rest, c)[i - 1]);
            }
        }
    }
}

/// Whether a text is white up to one place and from another on, and not just inside of them.
pub open spec fn bared(s: Seq<char>, from: int, to: int) -> bool {
    &&& 0 <= from <= to <= s.len()
    &&& forall|j: int| 0 <= j < from ==> text::is_white(#[trigger] s[j])
    &&& forall|j: int| to <= j < s.len() ==> text::is_white(#[trigger] s[j])
    &&& from < to ==> !text::is_white(s[from]) && !text::is_white(s[to - 1])
}

proof fn lemma_trim_start(s: Seq<char>) -> (k: int)
    ensures
        0 <= k <= s.len(),
        text::trim_start(s) == s.skip(k),
        forall|j: int| 0 <= j < k ==> text::is_white(#[trigger] s[j]),
        k < s.len() ==> !text::is_white(s[k]),
    decreases s.len(),
{
    if s.len() > 0 && text::is_white(s[0]) {
        let rest = s.drop_first();
        let k = lemma_trim_start(rest);
        assert(rest.skip(k) =~= s.skip(k + 1));
        assert forall|j: int| 0 <= j < k + 1 implies text::is_white(#[trigger] s[j]) by {
            if j > 0 {
                assert(rest[j - 1] == s[j]);
            }
        }
        if k < rest.len() {
            assert(rest[k] == s[k + 1]);
        }
        k + 1
    } else {
        assert(s.skip(0) =~= s);
        0
    }
}

proof fn lemma_trim_end(s: Seq<char>) -> (n: int)
    ensures
        0 <= n <= s.len(),
        text::trim_end(s) == s.take(n),
        forall|j: int| n <= j < s.len() ==> text::is_white(#[trigger] s[j]),
        n > 0 ==> !text::is_white(s[n - 1]),
    decreases s.len(),
{
    if s.len() > 0 && text::is_white(s.last()) {
        let first = s.drop_last();
        let n = lemma_trim_end(first);
        assert(first.take(n) =~= s.take(n));
        assert forall|j: int| n <= j < s.len() implies text::is_white(#[trigger] s[j]) by {
            if j < first.len() {
                assert(first[j] == s[j]);
            }
        }
        if n > 0 {
            assert(first[n - 1] == s[n - 1]);
        }
        n
    } else {
        assert(s.take(s.len() as int) =~= s);
        s.len() as int
    }
}

/// Trimming takes away what is white at both ends, and no more.
pub proof fn law_trimming_bares_the_text(s: Seq<char>)
    ensures
        exists|from: int, to: int| #[trigger]
            bared(s, from, to) && text::trimmed(s) == s.subrange(from, to),
{
    let from = lemma_trim_start(s);
    let t = text::trim_start(s);
    let n = lemma_trim_end(t);
    assert(t.take(n) =~= s.subrange(from, from + n));
    assert forall|j: int| from + n <= j < s.len() implies text::is_white(#[trigger] s[j]) by {
        assert(t[j - from] == s[j]);
    }
    if n > 0 {
        assert(t[n - 1] == s[from + n - 1]);
        assert(from < s.len());
    }
    assert(bared(s, from, from + n));
}

/// The first word of a text stands between white space; a text without one is white.
pub proof fn law_words_stand_between_white(s: Seq<char>)
    ensures
        text::first_word(s) is None <==> forall|j: int|
            0 <= j < s.len() ==> text::is_white(#[trigger] s[j]),
        text::first_word(s) matches Some(w) ==> w.len() > 0 && exists|from: int| #[trigger]
            word_at(s, from, w),
{
    let k = lemma_trim_start(s);
    let t = text::trim_start(s);
    if t.len() > 0 {
        let n = lemma_white_position(t);
        let w = t.take(n);
        assert(t[0] == s[k]);
        assert(n > 0);
        assert(s.subrange(k, k + w.len()) =~= w);
        assert forall|j: int| 0 <= j < w.len() implies !text::is_white(#[trigger] w[j]) by {
            assert(t[j] == w[j]);
        }
        if k + n < s.len() {
            assert(t[n] == s[k + n]);
        }
        assert(word_at(s, k, w));
    }
}

/// Whether a word stands at a place, after white space only.
pub open spec fn word_at(s: Seq<char>, from: int, w: Seq<char>) -> bool {
    &&& 0 <= from && from + w.len() <= s.len() && s.subrange(from, from + w.len()) == w
    &&& forall|j: int| 0 <= j < from ==> text::is_white(#[trigger] s[j])
    &&& forall|j: int| 0 <= j < w.len() ==> !text::is_white(#[trigger] w[j])
    &&& from + w.len() < s.len() ==> text::is_white(s[from + w.len()])
}

proof fn lemma_white_position(s: Seq<char>) -> (n: int)
    ensures
        n == text::white_position(s),
        0 <= n <= s.len(),
        forall|j: int| 0 <= j < n ==> !text::is_white(#[trigger] s[j]),
        n < s.len() ==> text::is_white(s[n]),
    decreases s.len(),
{
    if s.len() == 0 || text::is_white(s[0]) {
        0
    } else {
        let rest = s.drop_first();
        let n = lemma_white_position(rest);
        assert forall|j: int| 0 <= j < n + 1 implies !text::is_white(#[trigger] s[j]) by {
            if j > 0 {
                assert(rest[j - 1] == s[j]);
            }
        }
        if n < rest.len() {
            assert(rest[n] == s[n + 1]);
        }
        n + 1
    }
}

/// White are the blank, the characters that move to another place on the page, and the blanks of
/// other scripts; letters and digits are not.
pub proof fn law_blanks_are_white(c: char)
    ensures
        c == ' ' || c == '\t' || c == '\n' || c == '\r' || c == '\u{b}' || c == '\u{c}' || c
            == '\u{a0}' || c == '\u{3000}' || c == '\u{2003}' ==> text::is_white(c),
        '!' <= c <= '~' ==> !text::is_white(c),
        c == '\u{200b}' || c == '\u{feff}' || c == '\0' ==> !text::is_white(c),
{
}

/// A number that is written is read back.
pub proof fn law_numbers_are_read_back(n: nat)
    ensures
        text::number(text::decimal(n)) == n,
        text::all_digits(text::decimal(n)),
        text::decimal(n).len() > 0,
        text::decimal(n)[0] == '0' ==> n == 0,
        n <= u64::MAX ==> text::parse_u64(text::decimal(n)) == Some(n as u64) && text::parse_u64(
            seq!['+'] + text::decimal(n),
        ) == Some(n as u64),
        n > u64::MAX ==> text::parse_u64(text::decimal(n)) is None,
    decreases n,
{
    let d = text::decimal(n);
    if n >= 10 {
        law_numbers_are_read_back(n / 10);
        let front = text::decimal(n / 10);
        assert(d.drop_last() =~= front);
        assert(d[0] == front[0]);
        assert forall|i: int| 0 <= i < d.len() implies text::is_digit(#[trigger] d[i]) by {
            if i < front.len() {
                assert(d[i] == front[i]);
            }
        }
        assert(n == 10 * (n / 10) + n % 10);
    } else {
        assert(d.drop_last() =~= Seq::<char>::empty());
        assert(text::number(d.drop_last()) == 0);
    }
    assert(text::is_digit(d[0]));
    let plus = seq!['+'] + d;
    assert(plus.drop_first() =~= d);
}

/// Only digits, after a plus sign or not, are read as a number.
pub proof fn law_only_digits_are_numbers(s: Seq<char>)
    ensures
        text::parse_u64(s) is Some ==> s.len() > 0 && text::is_digit(s.last()) && forall|i: int|
            0 <= i < s.len() ==> text::is_digit(#[trigger] s[i]) || (i == 0 && s[i] == '+'),
{
    let d = text::unsigned_part(s);
    if text::parse_u64(s) is Some {
        assert(text::is_digit(d[d.len() - 1]));
        assert(s.last() == d[d.len() - 1]);
        assert forall|i: int| 0 <= i < s.len() implies text::is_digit(#[trigger] s[i]) || (i == 0
            && s[i] == '+') by {
            if s[0] == '+' {
                if i > 0 {
                    assert(d[i - 1] == s[i]);
                }
            } else {
                assert(d[i] == s[i]);
            }
        }
    }
}

/// Letters change their case and nothing else does.
pub proof fn law_only_letters_change_their_case(c: char)
    ensures
        'A' <= c <= 'Z' ==> text::lower_ascii(c) as int == c as int + 32,
        !('A' <= c <= 'Z') ==> text::lower_ascii(c) == c,
        'a' <= c <= 'z' ==> text::upper_ascii(c) as int == c as int - 32,
        !('a' <= c <= 'z') ==> text::upper_ascii(c) == c,
        text::is_digit(c) <==> '0' <= c <= '9',
        text::is_hex_digit(c) <==> '0' <= c <= '9' || 'a' <= text::lower_ascii(c) <= 'f',
        text::is_alphanumeric(c) <==> '0' <= c <= '9' || 'a' <= text::lower_ascii(c) <= 'z',
{
}

/// Replacing works place by place: what is looked for is replaced and everything else stays.
pub proof fn law_replacing_works_place_by_place(
    a: Seq<char>,
    b: Seq<char>,
    c: char,
    by: Seq<char>,
)
    ensures
        text::replaced(a + b, c, by) == text::replaced(a, c, by) + text::replaced(b, c, by),
        text::replaced(seq![c], c, by) == by,
        !a.contains(c) ==> text::replaced(a, c, by) == a,
    decreases a.len() + b.len(),
{
    if b.len() > 0 {
        assert((a + b).drop_last() =~= a + b.drop_last());
        law_replacing_works_place_by_place(a, b.drop_last(), c, by);
        assert(text::replaced(a + b, c, by) =~= text::replaced(a, c, by) + text::replaced(b, c, by));
    } else {
        assert(a + b =~= a);
        assert(text::replaced(b, c, by) =~= Seq::<char>::empty());
        assert(text::replaced(a + b, c, by) =~= text::replaced(a, c, by) + text::replaced(b, c, by));
        if a.len() > 0 {
            let none = Seq::<char>::empty();
            law_replacing_works_place_by_place(a.drop_last(), none, c, by);
            if !a.contains(c) {
                assert(a[a.len() - 1] == a.last());
                assert(!a.drop_last().contains(c)) by {
                    if a.drop_last().contains(c) {
                        let k = choose|k: int|
                            0 <= k < a.drop_last().len() && a.drop_last()[k] == c;
                        assert(a[k] == c);
                    }
                }
                assert(a.drop_last() + seq![a.last()] =~= a);
            }
        }
    }
    assert(seq![c].drop_last() =~= Seq::<char>::empty());
    assert(text::replaced(seq![c], c, by) =~= by);
    if b.len() > 0 && !a.contains(c) {
        law_replacing_works_place_by_place(a, Seq::empty(), c, by);
    }
}

/// Swapping replaces a part where it stands, from the front, and changes nothing where it does not.
pub proof fn law_swapping_replaces_parts(s: Seq<char>, part: Seq<char>, by: Seq<char>)
    requires
        part.len() > 0,
    ensures
        text::swapped(part + s, part, by) == by + text::swapped(s, part, by),
        !text::occurs(part, s) ==> text::swapped(s, part, by) == s,
    decreases s.len(),
{
    assert((part + s).subrange(0, part.len() as int) =~= part);
    assert((part + s).skip(part.len() as int) =~= s);
    if s.len() > 0 && !text::occurs(part, s) {
        let rest = s.skip(1);
        if part.is_prefix_of(s) {
            assert(s.subrange(0, 0int + part.len()) =~= part);
        }
        if text::occurs(part, rest) {
            let i = choose|i: int|
                0 <= i && i + part.len() <= rest.len() && #[trigger] rest.subrange(
                    i,
                    i + part.len(),
                ) == part;
            assert(s.subrange(i + 1, i + 1 + part.len()) =~= part);
        }
        law_swapping_replaces_parts(rest, part, by);
        assert(seq![s[0]] + rest =~= s);
    }
}

/// A text is filled up with blanks to a width, and never cut.
pub proof fn law_padding_fills_up(s: Seq<char>, width: nat)
    ensures
        s.is_prefix_of(text::padded(s, width)),
        text::padded(s, width).len() == if s.len() < width {
            width
        } else {
            s.len()
        },
        forall|i: int|
            s.len() <= i < text::padded(s, width).len() ==> #[trigger] text::padded(s, width)[i]
                == ' ',
{
    assert(text::padded(s, width).subrange(0, s.len() as int) =~= s);
}

/// Words are in the order of a dictionary: by the first place where they differ, and a word comes
/// before those that it begins.
pub proof fn law_words_are_ordered_as_in_a_dictionary(
    front: Seq<u32>,
    a: Seq<u32>,
    b: Seq<u32>,
)
    ensures
        order::lex_less(front + a, front + b) == order::lex_less(a, b),
        a.len() > 0 && b.len() > 0 && a[0] != b[0] ==> order::lex_less(a, b) == (a[0] < b[0]),
        b.len() > 0 ==> order::lex_less(front, front + b),
        !order::lex_less(front + a, front),
    decreases front.len(),
{
    let none = Seq::<u32>::empty();
    if front.len() > 0 {
        let rest = front.drop_first();
        law_words_are_ordered_as_in_a_dictionary(rest, a, b);
        assert((front + a).drop_first() =~= rest + a);
        assert((front + b).drop_first() =~= rest + b);
    } else {
        assert(front + a =~= a);
        assert(front + b =~= b);
    }
}

/// The value under a name in a document is that of the first entry with the name, and there is none
/// where no entry has it, nor in what is no object.
pub proof fn law_names_are_looked_up(entries: Vec<(String, Json)>, j: Json, key: Seq<char>)
    ensures
        json::member(Json::Object(entries), key) is None <==> forall|i: int|
            0 <= i < entries@.len() ==> (#[trigger] entries@[i]).0@ != key,
        json::member(Json::Object(entries), key) matches Some(v) ==> exists|i: int|
            0 <= i < entries@.len() && #[trigger] entries@[i].0@ == key && entries@[i].1 == v && (
            forall|k: int| 0 <= k < i ==> (#[trigger] entries@[k]).0@ != key),
        !(j is Object) ==> json::member(j, key) is None,
        json::member(j, key) is None ==> json::at(j, key) is Null,
        json::member(j, key) matches Some(v) ==> json::at(j, key) == v,
{
    lemma_lookup(entries@, key);
}

/// Whether the entry at a place is the first one with a name.
pub open spec fn first_entry(entries: Seq<(String, Json)>, key: Seq<char>, i: int) -> bool {
    &&& 0 <= i < entries.len() && entries[i].0@ == key
    &&& forall|k: int| 0 <= k < i ==> (#[trigger] entries[k]).0@ != key
}

proof fn lemma_lookup(entries: Seq<(String, Json)>, key: Seq<char>)
    ensures
        json::lookup(entries, key) is None <==> forall|i: int|
            0 <= i < entries.len() ==> (#[trigger] entries[i]).0@ != key,
        json::lookup(entries, key) matches Some(v) ==> exists|i: int| #[trigger]
            first_entry(entries, key, i) && entries[i].1 == v,
    decreases entries.len(),
{
    if entries.len() > 0 {
        let rest = entries.drop_first();
        lemma_lookup(rest, key);
        if entries[0].0@ == key {
            assert(first_entry(entries, key, 0));
        } else {
            match json::lookup(rest, key) {
                Some(v) => {
                    let i = choose|i: int| #[trigger]
                        first_entry(rest, key, i) && rest[i].1 == v;
                    assert(entries[i + 1] == rest[i]);
                    assert forall|k: int| 0 <= k < i + 1 implies (#[trigger] entries[k]).0@
                        != key by {
                        if k > 0 {
                            assert(rest[k - 1] == entries[k]);
                        }
                    }
                    assert(first_entry(entries, key, i + 1));
                },
                None => {
                    assert forall|i: int| 0 <= i < entries.len() implies (
                    #[trigger] entries[i]).0@ != key by {
                        if i > 0 {
                            assert(rest[i - 1] == entries[i]);
                        }
                    }
                },
            }
        }
    }
}

/// What is read of a value is there only where it is of that kind.
pub proof fn law_values_are_read_by_their_kind(j: Json, n: int)
    ensures
        json::text_of(j) is Some <==> j is Text,
        json::bool_of(j) is Some <==> j is Bool,
        json::number_of(j) is Some ==> j is Number,
        json::items_of(j) is Some <==> j is Array,
        json::entries_of(j) is Some <==> j is Object,
        json::element(j, n) is Some <==> (json::items_of(j) matches Some(items) && 0 <= n
            < items.len()),
        json::element(j, n) matches Some(v) ==> (json::items_of(j) matches Some(items) && v
            == items[n]),
{
}

/// Whether a text names one entry of a directory.
pub open spec fn is_name(n: Seq<char>) -> bool {
    n.len() > 0 && n != "."@ && n != ".."@ && !n.contains('/')
}

proof fn lemma_name_parts(n: Seq<char>)
    requires
        !n.contains('/'),
    ensures
        !path::absolute(n),
        path::pieces_parts(text::split(n, '/')) == path::piece_parts(n),
{
    text::lemma_position(n, '/');
    let k = text::position(n, '/');
    if k < n.len() {
        assert(n[k as int] == '/');
        assert(n.contains('/'));
    }
    assert(text::split(n, '/') =~= seq![n]);
    let none = Seq::<Seq<char>>::empty();
    assert(seq![n].drop_last() =~= none);
    assert(path::pieces_parts(none) =~= Seq::<Part>::empty());
    assert(path::pieces_parts(seq![n]) =~= path::piece_parts(n));
    if n.len() > 0 && n[0] == '/' {
        assert(n.contains('/'));
    }
}

/// A path that goes on to an entry has the entry as its last component, and is named after it; one that
/// goes on to nowhere, or stays, is the same place; and one that goes up says so. An absolute path
/// starts anew.
pub proof fn law_paths_go_on(p: Seq<char>, n: Seq<char>, q: Seq<char>)
    requires
        p.len() > 0,
        is_name(n),
    ensures
        path::parts(path::joined(p, n)) == path::parts(p).push(Part::Normal(n)),
        path::file_name(path::joined(p, n)) == Some(n),
        path::under(path::joined(p, n), p),
        !path::under(p, path::joined(p, n)),
        path::parts(path::joined(p, "."@)) == path::parts(p),
        path::parts(path::joined(p, ""@)) == path::parts(p),
        path::parts(path::joined(p, ".."@)) == path::parts(p).push(Part::Parent),
        path::climbs(path::joined(p, ".."@)),
        path::absolute(q) ==> path::joined(p, q) == q,
{
    reveal_strlit(".");
    reveal_strlit("");
    reveal_strlit("..");
    assert("."@.len() == 1 && ""@.len() == 0 && ".."@.len() == 2);
    lemma_name_parts(n);
    path::lemma_joined_parts(p, n);
    let j = path::joined(p, n);
    assert(path::piece_parts(n) =~= seq![Part::Normal(n)]);
    assert(path::parts(j) =~= path::parts(p).push(Part::Normal(n)));
    assert(path::parts(j).subrange(0, path::parts(p).len() as int) =~= path::parts(p));
    assert(!"."@.contains('/')) by {
        assert("."@[0] == '.');
    }
    assert(!".."@.contains('/')) by {
        assert(".."@[0] == '.' && ".."@[1] == '.');
    }
    lemma_name_parts("."@);
    path::lemma_joined_parts(p, "."@);
    assert(path::parts(path::joined(p, "."@)) =~= path::parts(p));
    lemma_name_parts(""@);
    path::lemma_joined_parts(p, ""@);
    assert(path::parts(path::joined(p, ""@)) =~= path::parts(p));
    lemma_name_parts(".."@);
    path::lemma_joined_parts(p, ".."@);
    let up = path::parts(path::joined(p, ".."@));
    assert(path::piece_parts(".."@) =~= seq![Part::Parent]);
    assert(up =~= path::parts(p).push(Part::Parent));
    assert(up[up.len() - 1] == Part::Parent);
}

/// A path lies below itself, and below whatever what it lies below lies below; two that lie below each
/// other are one place.
pub proof fn law_places_lie_below_each_other(a: Seq<char>, b: Seq<char>, c: Seq<char>)
    ensures
        path::under(a, a),
        path::under(a, b) && path::under(b, c) ==> path::under(a, c),
        path::under(a, b) && path::under(b, a) ==> path::parts(a) == path::parts(b),
        path::overlap(a, b) == path::overlap(b, a),
{
    let (x, y, z) = (path::parts(a), path::parts(b), path::parts(c));
    assert(x.subrange(0, x.len() as int) =~= x);
    if path::under(a, b) && path::under(b, c) {
        assert(x.subrange(0, z.len() as int) =~= y.subrange(0, z.len() as int));
    }
    path::lemma_prefix_both(x, y);
}

proof fn lemma_last_position(s: Seq<char>, c: char)
    ensures
        -1 <= path::last_position(s, c) < s.len(),
        path::last_position(s, c) >= 0 ==> s[path::last_position(s, c)] == c,
        forall|j: int| path::last_position(s, c) < j < s.len() ==> #[trigger] s[j] != c,
    decreases s.len(),
{
    if s.len() > 0 && s.last() != c {
        let first = s.drop_last();
        lemma_last_position(first, c);
        assert forall|j: int| path::last_position(s, c) < j < s.len() implies #[trigger] s[j]
            != c by {
            if j < first.len() {
                assert(first[j] == s[j]);
            }
        }
    }
}

/// The ending of a name is what follows its last dot, and the stem what stands before it; a name whose
/// only dot comes first has no ending.
pub proof fn law_names_are_stems_and_endings(p: Seq<char>)
    ensures
        path::file_name(p) is None ==> path::extension(p) is None && path::stem(p).len() == 0,
        path::file_name(p) matches Some(n) ==> {
            &&& path::extension(p) matches Some(e) ==> n == path::stem(p) + seq!['.'] + e
                && path::stem(p).len() > 0 && !e.contains('.')
            &&& path::extension(p) is None ==> path::stem(p) == n && forall|i: int|
                0 < i < n.len() ==> #[trigger] n[i] != '.'
        },
{
    let n = path::name_or_empty(p);
    lemma_last_position(n, '.');
    if let Some(e) = path::extension(p) {
        let k = path::last_position(n, '.');
        assert(n =~= path::stem(p) + seq!['.'] + e);
        assert forall|j: int| 0 <= j < e.len() implies #[trigger] e[j] != '.' by {
            assert(n[k + 1 + j] == e[j]);
        }
    }
}

/// Whether components can be those of a path that does not begin at the root.
pub open spec fn are_steps(ps: Seq<Part>) -> bool {
    forall|i: int|
        0 <= i < ps.len() ==> match #[trigger] ps[i] {
            Part::Normal(n) => is_name(n),
            Part::Parent => true,
            _ => false,
        }
}

proof fn lemma_steps(pieces: Seq<Seq<char>>)
    requires
        forall|i: int| 0 <= i < pieces.len() ==> !(#[trigger] pieces[i]).contains('/'),
    ensures
        are_steps(path::pieces_parts(pieces)),
    decreases pieces.len(),
{
    if pieces.len() > 0 {
        let first = pieces.drop_last();
        assert(pieces[pieces.len() - 1] == pieces.last());
        assert forall|i: int| 0 <= i < first.len() implies !(#[trigger] first[i]).contains('/') by {
            assert(pieces[i] == first[i]);
        }
        lemma_steps(first);
    }
}

proof fn lemma_written(ps: Seq<Part>)
    requires
        are_steps(ps),
    ensures
        !path::absolute(path::written(ps)),
        path::pieces_parts(text::split(path::written(ps), '/')) == ps,
        ps.len() > 0 ==> path::written(ps).len() > 0,
    decreases ps.len(),
{
    reveal_strlit("/");
    reveal_strlit("..");
    reveal_strlit(".");
    assert("."@.len() == 1 && ".."@.len() == 2);
    let w = path::written(ps);
    if ps.len() == 0 {
        lemma_name_parts(w);
        assert(path::piece_parts(w) =~= ps);
    } else {
        let last = path::part_text(ps.last());
        assert(ps[ps.len() - 1] == ps.last());
        assert(!last.contains('/')) by {
            if ps.last() == Part::Parent {
                assert(".."@[0] == '.' && ".."@[1] == '.');
            }
        }
        lemma_name_parts(last);
        assert(path::piece_parts(last) =~= seq![ps.last()]);
        if ps.len() == 1 {
            assert(w == last);
            assert(ps =~= seq![ps.last()]);
        } else {
            let first = ps.drop_last();
            assert forall|i: int| 0 <= i < first.len() implies match #[trigger] first[i] {
                Part::Normal(n) => is_name(n),
                Part::Parent => true,
                _ => false,
            } by {
                assert(ps[i] == first[i]);
            }
            lemma_written(first);
            let a = path::written(first);
            assert(ps[0] != Part::Root);
            assert(w =~= a + seq!['/'] + last);
            path::lemma_split_add(a, last, '/');
            path::lemma_pieces_add(text::split(a, '/'), text::split(last, '/'));
            assert(ps =~= first + seq![ps.last()]);
            assert(w[0] == a[0]);
        }
    }
}

/// What a path is below another one leads from there to the same place; and there is such a way exactly
/// for what lies below it.
pub proof fn law_the_way_below_leads_back(p: Seq<char>, base: Seq<char>)
    ensures
        path::below(p, base) is Some <==> path::under(p, base),
        base.len() > 0 && path::parts(base).len() > 0 ==> (path::below(p, base) matches Some(q)
            ==> !path::absolute(q) && path::parts(path::joined(base, q)) == path::parts(p)),
{
    let n = path::parts(base).len();
    if base.len() > 0 && n > 0 && path::under(p, base) {
        let all = path::parts(p);
        let steps = path::pieces_parts(text::split(p, '/'));
        law_pieces_make_the_text(p, '/');
        lemma_steps(text::split(p, '/'));
        let rest = all.skip(n as int);
        let m = path::lead(p).len();
        assert(m <= 1);
        assert forall|i: int| 0 <= i < rest.len() implies match #[trigger] rest[i] {
            Part::Normal(n) => is_name(n),
            Part::Parent => true,
            _ => false,
        } by {
            assert(rest[i] == all[n + i]);
            assert(all[n + i] == steps[n + i - m]);
        }
        lemma_written(rest);
        let q = path::written(rest);
        path::lemma_joined_parts(base, q);
        assert(all.subrange(0, n as int) == path::parts(base));
        assert(all =~= path::parts(base) + rest);
    }
}

proof fn lemma_ranks_add(a: Seq<Part>, b: Seq<Part>)
    ensures
        path::ranks(a + b) == path::ranks(a) + path::ranks(b),
        b.len() > 0 ==> path::ranks(b).len() > 0,
    decreases b.len(),
{
    if b.len() == 0 {
        assert(a + b =~= a);
        assert(path::ranks(a) + path::ranks(b) =~= path::ranks(a));
    } else {
        assert((a + b).drop_last() =~= a + b.drop_last());
        lemma_ranks_add(a, b.drop_last());
        assert(path::ranks(a + b) =~= path::ranks(a) + path::ranks(b));
    }
}

/// In their order, paths come before what lies below them.
pub proof fn law_paths_come_before_what_lies_below(p: Seq<char>, base: Seq<char>)
    requires
        path::under(p, base),
        path::parts(p) != path::parts(base),
    ensures
        order::key_less(filesystem::path_key(base), filesystem::path_key(p)),
{
    let (a, b) = (path::parts(base), path::parts(p));
    let rest = b.skip(a.len() as int);
    assert(b.subrange(0, a.len() as int) == a);
    assert(b =~= a + rest);
    if rest.len() == 0 {
        assert(b =~= a);
    }
    lemma_ranks_add(a, rest);
    law_words_are_ordered_as_in_a_dictionary(path::ranks(a), Seq::empty(), path::ranks(rest));
}

} // verus!
