//! Unix paths as texts: their components, and what is read off them.
//!
//! Two paths are the same place in the tree, as far as text tells, exactly when their
//! components are equal: repeated and trailing separators and inner `.` do not count.
use crate::text;
use crate::text::{chars_of, concat2, concat3, same, slice, split_of};
use vstd::prelude::*;
use vstd::string::*;

verus! {

broadcast use {text::lemma_views_push, text::lemma_views_add};

/// A component of a path.
pub enum Part {
    Root,
    Cur,
    Parent,
    Normal(Seq<char>),
}

/// A component of a path, as a value.
#[derive(Debug)]
pub enum Component {
    Root,
    Cur,
    Parent,
    Normal(String),
}

impl View for Component {
    type V = Part;

    open spec fn view(&self) -> Part {
        match self {
            Component::Root => Part::Root,
            Component::Cur => Part::Cur,
            Component::Parent => Part::Parent,
            Component::Normal(s) => Part::Normal(s@),
        }
    }
}

/// What a piece between separators contributes.
pub open spec fn piece_parts(piece: Seq<char>) -> Seq<Part> {
    if piece.len() == 0 || piece == "."@ {
        Seq::empty()
    } else if piece == ".."@ {
        seq![Part::Parent]
    } else {
        seq![Part::Normal(piece)]
    }
}

/// What a list of pieces contributes.
pub open spec fn pieces_parts(pieces: Seq<Seq<char>>) -> Seq<Part>
    decreases pieces.len(),
{
    if pieces.len() == 0 {
        Seq::empty()
    } else {
        pieces_parts(pieces.drop_last()) + piece_parts(pieces.last())
    }
}

/// The component that a path starts with because of its first characters.
pub open spec fn lead(p: Seq<char>) -> Seq<Part> {
    if absolute(p) {
        seq![Part::Root]
    } else if text::split(p, '/')[0] == "."@ {
        seq![Part::Cur]
    } else {
        Seq::empty()
    }
}

/// The components of a path.
pub open spec fn parts(p: Seq<char>) -> Seq<Part> {
    lead(p) + pieces_parts(text::split(p, '/'))
}

pub open spec fn absolute(p: Seq<char>) -> bool {
    p.len() > 0 && p[0] == '/'
}

/// Whether a path is `base` or lies below it.
pub open spec fn under(p: Seq<char>, base: Seq<char>) -> bool {
    parts(base).is_prefix_of(parts(p))
}

/// Whether one of two paths lies below the other, or they are the same.
pub open spec fn overlap(p: Seq<char>, q: Seq<char>) -> bool {
    under(p, q) || under(q, p)
}

/// Whether `a` is `p` or one of the directories that its text names on the way to it.
pub open spec fn ancestor(a: Seq<char>, p: Seq<char>) -> bool {
    under(p, a) && (parts(a).len() > 0 || !absolute(p))
}

/// A path continued by another.
pub open spec fn joined(p: Seq<char>, q: Seq<char>) -> Seq<char> {
    if absolute(q) {
        q
    } else if p.len() == 0 || p.last() == '/' {
        p + q
    } else {
        p + "/"@ + q
    }
}

/// The last component, where it is a name.
pub open spec fn file_name(p: Seq<char>) -> Option<Seq<char>> {
    if parts(p).len() > 0 {
        match parts(p).last() {
            Part::Normal(n) => Some(n),
            _ => None,
        }
    } else {
        None
    }
}

/// The name of a path, or nothing where it has none.
pub open spec fn name_or_empty(p: Seq<char>) -> Seq<char> {
    match file_name(p) {
        Some(n) => n,
        None => Seq::empty(),
    }
}

/// The last position of a character, or -1.
pub open spec fn last_position(s: Seq<char>, c: char) -> int
    decreases s.len(),
{
    if s.len() == 0 {
        -1
    } else if s.last() == c {
        s.len() - 1
    } else {
        last_position(s.drop_last(), c)
    }
}

/// What follows the last dot of the name, unless the name has none or only starts with it.
pub open spec fn extension(p: Seq<char>) -> Option<Seq<char>> {
    match file_name(p) {
        Some(n) => {
            let k = last_position(n, '.');
            if k <= 0 {
                None
            } else {
                Some(n.skip(k + 1))
            }
        },
        None => None,
    }
}

/// The name without its extension.
pub open spec fn stem(p: Seq<char>) -> Seq<char> {
    let n = name_or_empty(p);
    let k = last_position(n, '.');
    if k <= 0 {
        n
    } else {
        n.take(k)
    }
}

/// The text of a component.
pub open spec fn part_text(p: Part) -> Seq<char> {
    match p {
        Part::Root => Seq::empty(),
        Part::Cur => "."@,
        Part::Parent => ".."@,
        Part::Normal(n) => n,
    }
}

/// Components written as a path.
pub open spec fn written(ps: Seq<Part>) -> Seq<char>
    decreases ps.len(),
{
    if ps.len() == 0 {
        Seq::empty()
    } else if ps.len() == 1 {
        if ps[0] == Part::Root {
            "/"@
        } else {
            part_text(ps[0])
        }
    } else if ps.len() == 2 && ps[0] == Part::Root {
        "/"@ + part_text(ps[1])
    } else {
        written(ps.drop_last()) + "/"@ + part_text(ps.last())
    }
}

/// What of a path lies below `base`.
pub open spec fn below(p: Seq<char>, base: Seq<char>) -> Option<Seq<char>> {
    if under(p, base) {
        Some(written(parts(p).skip(parts(base).len() as int)))
    } else {
        None
    }
}

/// Whether some component of a path is `..`.
pub open spec fn climbs(p: Seq<char>) -> bool {
    parts(p).contains(Part::Parent)
}

/// Numbers by which components are ordered: the root first, then `.`, `..` and names.
pub open spec fn rank(p: Part) -> Seq<u32> {
    match p {
        Part::Root => seq![1u32],
        Part::Cur => seq![2u32],
        Part::Parent => seq![3u32],
        Part::Normal(n) => seq![4u32] + n.map_values(|c: char| (c as u32 + 1) as u32) + seq![0u32],
    }
}

/// Numbers by which paths are ordered: component by component.
pub open spec fn ranks(ps: Seq<Part>) -> Seq<u32>
    decreases ps.len(),
{
    if ps.len() == 0 {
        Seq::empty()
    } else {
        ranks(ps.drop_last()) + rank(ps.last())
    }
}

pub fn is_absolute(p: &str) -> (r: bool)
    ensures
        r == absolute(p@),
{
    let chars = chars_of(p);
    chars.len() > 0 && chars[0] == '/'
}

proof fn lemma_split_nonempty(s: Seq<char>, c: char)
    ensures
        text::split(s, c).len() > 0,
{
}

/// The components of a path.
pub fn components(p: &str) -> (r: Vec<Component>)
    ensures
        text::views(r@) == parts(p@),
{
    let pieces = split_of(p, '/');
    proof {
        lemma_split_nonempty(p@, '/');
        assert(text::views(pieces@)[0] == pieces@[0]@);
        assert(text::views(pieces@).len() == pieces@.len());
    }
    let mut out: Vec<Component> = Vec::new();
    assert(text::views(out@) =~= Seq::<Part>::empty());
    if is_absolute(p) {
        out.push(Component::Root);
        assert(text::views(out@) =~= seq![Part::Root]);
    } else if same(pieces[0].as_str(), ".") {
        out.push(Component::Cur);
        assert(text::views(out@) =~= seq![Part::Cur]);
    }
    let mut i: usize = 0;
    assert(text::views(pieces@).take(0) =~= Seq::<Seq<char>>::empty());
    assert(text::views(out@) =~= lead(p@) + pieces_parts(text::views(pieces@).take(0)));
    while i < pieces.len()
        invariant
            i <= pieces@.len(),
            text::views(pieces@).len() == pieces@.len(),
            text::views(out@) == lead(p@) + pieces_parts(text::views(pieces@).take(i as int)),
        decreases pieces@.len() - i,
    {
        let piece = pieces[i].as_str();
        let ghost before = text::views(out@);
        let ghost done = text::views(pieces@).take(i as int);
        assert(text::views(pieces@).take(i + 1).drop_last() =~= done);
        assert(text::views(pieces@).take(i + 1).last() == piece@);
        if piece.is_empty() || same(piece, ".") {
        } else if same(piece, "..") {
            out.push(Component::Parent);
        } else {
            out.push(Component::Normal(piece.to_owned()));
        }
        assert(text::views(out@) =~= before + piece_parts(piece@));
        assert(text::views(out@) =~= lead(p@) + pieces_parts(text::views(pieces@).take(i + 1)));
        i += 1;
    }
    assert(text::views(pieces@).take(i as int) =~= text::views(pieces@));
    out
}

fn same_component(a: &Component, b: &Component) -> (r: bool)
    ensures
        r == (a@ == b@),
{
    match (a, b) {
        (Component::Root, Component::Root) => true,
        (Component::Cur, Component::Cur) => true,
        (Component::Parent, Component::Parent) => true,
        (Component::Normal(x), Component::Normal(y)) => same(x.as_str(), y.as_str()),
        _ => false,
    }
}

/// Whether a list of components starts with another.
pub fn has_prefix(p: &Vec<Component>, base: &Vec<Component>) -> (r: bool)
    ensures
        r == text::views(base@).is_prefix_of(text::views(p@)),
{
    if base.len() > p.len() {
        return false;
    }
    let mut i: usize = 0;
    while i < base.len()
        invariant
            i <= base@.len() <= p@.len(),
            forall|j: int| 0 <= j < i ==> p@[j]@ == base@[j]@,
        decreases base@.len() - i,
    {
        if !same_component(&p[i], &base[i]) {
            assert(text::views(p@).subrange(0, base@.len() as int)[i as int] != text::views(base@)[i as int]);
            return false;
        }
        i += 1;
    }
    assert(text::views(p@).subrange(0, base@.len() as int) =~= text::views(base@));
    true
}

/// Whether a path is `base` or lies below it.
pub fn is_under(p: &str, base: &str) -> (r: bool)
    ensures
        r == under(p@, base@),
{
    has_prefix(&components(p), &components(base))
}

pub fn overlaps(p: &str, q: &str) -> (r: bool)
    ensures
        r == overlap(p@, q@),
{
    is_under(p, q) || is_under(q, p)
}

pub fn is_ancestor(a: &str, p: &str) -> (r: bool)
    ensures
        r == ancestor(a@, p@),
{
    let ca = components(a);
    has_prefix(&components(p), &ca) && (ca.len() > 0 || !is_absolute(p))
}

pub proof fn lemma_prefix_both<A>(a: Seq<A>, b: Seq<A>)
    ensures
        a.is_prefix_of(b) && b.is_prefix_of(a) <==> a == b,
{
    if a.is_prefix_of(b) && b.is_prefix_of(a) {
        assert(b.subrange(0, a.len() as int) =~= b);
    }
    if a == b {
        assert(b.subrange(0, a.len() as int) =~= b);
    }
}

/// No piece between separators contributes the root.
pub proof fn lemma_pieces_without_root(pieces: Seq<Seq<char>>)
    ensures
        forall|i: int|
            0 <= i < pieces_parts(pieces).len() ==> (#[trigger] pieces_parts(pieces)[i])
                != Part::Root,
    decreases pieces.len(),
{
    if pieces.len() > 0 {
        lemma_pieces_without_root(pieces.drop_last());
    }
}

/// Splitting goes part by part.
pub proof fn lemma_split_add(a: Seq<char>, b: Seq<char>, c: char)
    ensures
        text::split(a + seq![c] + b, c) == text::split(a, c) + text::split(b, c),
    decreases a.len(),
{
    let s = a + seq![c] + b;
    let k = text::position(a, c);
    text::lemma_position(a, c);
    if k < a.len() {
        let rest = a.skip(k + 1int);
        text::lemma_position_is(s, c, k as int);
        assert(s.take(k as int) =~= a.take(k as int));
        assert(s.skip(k + 1int) =~= rest + seq![c] + b);
        lemma_split_add(rest, b, c);
        assert(text::split(s, c) =~= text::split(a, c) + text::split(b, c));
    } else {
        text::lemma_position_is(s, c, a.len() as int);
        assert(s.take(a.len() as int) =~= a);
        assert(s.skip(a.len() + 1int) =~= b);
        assert(text::split(s, c) =~= text::split(a, c) + text::split(b, c));
    }
}

/// Components go part by part.
pub proof fn lemma_pieces_add(a: Seq<Seq<char>>, b: Seq<Seq<char>>)
    ensures
        pieces_parts(a + b) == pieces_parts(a) + pieces_parts(b),
    decreases b.len(),
{
    if b.len() == 0 {
        assert(a + b =~= a);
        assert(pieces_parts(a) + pieces_parts(b) =~= pieces_parts(a));
    } else {
        assert((a + b).drop_last() =~= a + b.drop_last());
        lemma_pieces_add(a, b.drop_last());
        assert(pieces_parts(a + b) =~= pieces_parts(a) + pieces_parts(b));
    }
}

proof fn lemma_single_piece(s: Seq<char>)
    ensures
        pieces_parts(seq![s]) == piece_parts(s),
{
    let none = Seq::<Seq<char>>::empty();
    assert(seq![s].drop_last() =~= none);
    assert(pieces_parts(none) =~= Seq::<Part>::empty());
    assert(pieces_parts(seq![s]) =~= piece_parts(s));
}

/// A path that is continued keeps its components in front.
pub proof fn lemma_joined_parts(p: Seq<char>, q: Seq<char>)
    requires
        p.len() > 0,
        !absolute(q),
    ensures
        absolute(joined(p, q)) == absolute(p),
        parts(joined(p, q)) == parts(p) + pieces_parts(text::split(q, '/')),
{
    let j = joined(p, q);
    reveal_strlit("/");
    if p.last() == '/' {
        let a = p.drop_last();
        let none = Seq::<char>::empty();
        assert(p =~= a + seq!['/'] + none);
        assert(j =~= a + seq!['/'] + q);
        lemma_split_add(a, none, '/');
        lemma_split_add(a, q, '/');
        lemma_pieces_add(text::split(a, '/'), text::split(none, '/'));
        lemma_pieces_add(text::split(a, '/'), text::split(q, '/'));
        assert(text::split(none, '/') =~= seq![none]);
        lemma_single_piece(none);
        lemma_split_nonempty(a, '/');
        assert(pieces_parts(text::split(p, '/')) =~= pieces_parts(text::split(a, '/')));
    } else {
        assert("/"@ =~= seq!['/']);
        assert(j =~= p + seq!['/'] + q);
        lemma_split_add(p, q, '/');
        lemma_pieces_add(text::split(p, '/'), text::split(q, '/'));
        lemma_split_nonempty(p, '/');
    }
    assert(lead(j) == lead(p));
    assert(parts(j) =~= parts(p) + pieces_parts(text::split(q, '/')));
}

/// A text without a separator contributes one component at most.
pub proof fn lemma_one_piece(s: Seq<char>)
    requires
        !s.contains('/'),
    ensures
        pieces_parts(text::split(s, '/')).len() <= 1,
{
    text::lemma_position(s, '/');
    let k = text::position(s, '/');
    if k < s.len() {
        assert(s[k as int] == '/');
    }
    assert(text::split(s, '/') =~= seq![s]);
    lemma_single_piece(s);
}

/// Whether two paths have the same components.
pub fn same_path(p: &str, q: &str) -> (r: bool)
    ensures
        r == (parts(p@) == parts(q@)),
{
    let a = components(p);
    let b = components(q);
    proof {
        lemma_prefix_both(parts(p@), parts(q@));
    }
    a.len() == b.len() && has_prefix(&a, &b)
}

/// A path continued by another.
pub fn join(p: &str, q: &str) -> (r: String)
    ensures
        r@ == joined(p@, q@),
{
    if is_absolute(q) {
        return q.to_owned();
    }
    let chars = chars_of(p);
    if chars.len() == 0 || chars[chars.len() - 1] == '/' {
        concat2(p, q)
    } else {
        concat3(p, "/", q)
    }
}

/// The last component, where it is a name.
pub fn name_of(p: &str) -> (r: Option<String>)
    ensures
        r is Some <==> file_name(p@) is Some,
        r is Some ==> r->0@ == file_name(p@)->0,
{
    let mut c = components(p);
    let ghost all = c@;
    assert(text::views(all).len() == all.len());
    match c.pop() {
        Some(Component::Normal(n)) => {
            assert(text::views(all).last() == all.last()@);
            Some(n)
        },
        Some(_) => {
            assert(text::views(all).last() == all.last()@);
            None
        },
        None => None,
    }
}

/// The name of a path, or nothing where it has none.
pub fn name(p: &str) -> (r: String)
    ensures
        r@ == name_or_empty(p@),
{
    match name_of(p) {
        Some(n) => n,
        None => String::new(),
    }
}

fn last_dot(chars: &Vec<char>) -> (r: Option<usize>)
    ensures
        match r {
            Some(k) => k as int == last_position(chars@, '.') && k < chars@.len(),
            None => last_position(chars@, '.') == -1,
        },
{
    let mut i: usize = chars.len();
    assert(chars@.take(i as int) =~= chars@);
    while i > 0
        invariant
            i <= chars@.len(),
            last_position(chars@.take(i as int), '.') == last_position(chars@, '.'),
        decreases i,
    {
        assert(chars@.take(i as int).drop_last() =~= chars@.take(i - 1));
        if chars[i - 1] == '.' {
            return Some(i - 1);
        }
        i -= 1;
    }
    assert(chars@.take(0) =~= Seq::<char>::empty());
    None
}

pub fn extension_of(p: &str) -> (r: Option<String>)
    ensures
        r is Some <==> extension(p@) is Some,
        r is Some ==> r->0@ == extension(p@)->0,
{
    match name_of(p) {
        Some(n) => {
            let chars = chars_of(n.as_str());
            match last_dot(&chars) {
                Some(k) => if k == 0 {
                    None
                } else {
                    let n = chars.len();
                    let e = slice(&chars, k + 1, n);
                    assert(e@ =~= chars@.skip(k + 1));
                    Some(e)
                },
                None => None,
            }
        },
        None => None,
    }
}

/// Whether the extension of a path is the given text.
pub fn has_extension(p: &str, ext: &str) -> (r: bool)
    ensures
        r == (extension(p@) == Some(ext@)),
{
    match extension_of(p) {
        Some(e) => same(e.as_str(), ext),
        None => false,
    }
}

pub fn stem_of(p: &str) -> (r: String)
    ensures
        r@ == stem(p@),
{
    let n = name(p);
    let chars = chars_of(n.as_str());
    match last_dot(&chars) {
        Some(k) => if k == 0 {
            n
        } else {
            let s = slice(&chars, 0, k);
            assert(s@ =~= chars@.take(k as int));
            s
        },
        None => n,
    }
}

fn component_text(c: &Component) -> (r: String)
    ensures
        r@ == part_text(c@),
{
    match c {
        Component::Root => String::new(),
        Component::Cur => ".".to_owned(),
        Component::Parent => "..".to_owned(),
        Component::Normal(n) => n.clone(),
    }
}

/// What of a path lies below `base`.
pub fn rest_below(p: &str, base: &str) -> (r: Option<String>)
    ensures
        r is Some <==> below(p@, base@) is Some,
        r is Some ==> r->0@ == below(p@, base@)->0,
{
    let c = components(p);
    let b = components(base);
    if !has_prefix(&c, &b) {
        return None;
    }
    let ghost tail = parts(p@).skip(parts(base@).len() as int);
    let from = b.len();
    let n = c.len();
    assert(parts(p@).len() == n && parts(base@).len() == from);
    let mut out = String::new();
    let mut i: usize = from;
    assert(tail.take(0) =~= Seq::<Part>::empty());
    while i < n
        invariant
            from <= i <= n == c@.len(),
            tail == text::views(c@).skip(from as int),
            out@ == written(tail.take(i - from)),
        decreases n - i,
    {
        let t = component_text(&c[i]);
        let ghost next = tail.take(i - from + 1);
        assert(next.drop_last() =~= tail.take(i - from));
        assert(next.last() == c@[i as int]@);
        assert(i > from ==> next[0] == c@[from as int]@);
        if i == from {
            match &c[i] {
                Component::Root => {
                    out.append("/");
                    assert(out@ =~= "/"@);
                },
                _ => {
                    out.append(t.as_str());
                    assert(out@ =~= t@);
                },
            }
            assert(next.len() == 1);
        } else {
            let rooted = match &c[from] {
                Component::Root => true,
                _ => false,
            };
            if i == from + 1 && rooted {
                assert(tail.take(1)[0] == Part::Root);
                assert(out@ == "/"@);
                out.append(t.as_str());
            } else {
                out.append("/");
                out.append(t.as_str());
            }
        }
        i += 1;
    }
    assert(tail.take(n - from) =~= tail);
    Some(out)
}

/// Whether some component of a path is `..`.
pub fn has_parent_component(p: &str) -> (r: bool)
    ensures
        r == climbs(p@),
{
    let c = components(p);
    let mut i: usize = 0;
    while i < c.len()
        invariant
            i <= c@.len(),
            text::views(c@) == parts(p@),
            forall|j: int| 0 <= j < i ==> c@[j]@ != Part::Parent,
        decreases c@.len() - i,
    {
        match &c[i] {
            Component::Parent => {
                assert(text::views(c@)[i as int] == Part::Parent);
                return true;
            },
            _ => {},
        }
        i += 1;
    }
    assert forall|j: int| 0 <= j < parts(p@).len() implies parts(p@)[j] != Part::Parent by {
        assert(parts(p@)[j] == c@[j]@);
    }
    false
}

/// The numbers by which a path is ordered.
pub fn order_key(p: &str) -> (r: Vec<u32>)
    ensures
        r@ == ranks(parts(p@)),
{
    let c = components(p);
    let mut out: Vec<u32> = Vec::new();
    let mut i: usize = 0;
    assert(text::views(c@).take(0) =~= Seq::<Part>::empty());
    while i < c.len()
        invariant
            i <= c@.len(),
            text::views(c@).len() == c@.len(),
            out@ == ranks(text::views(c@).take(i as int)),
        decreases c@.len() - i,
    {
        let ghost before = out@;
        let ghost next = text::views(c@).take(i + 1);
        assert(next.drop_last() =~= text::views(c@).take(i as int));
        assert(next.last() == c@[i as int]@);
        match &c[i] {
            Component::Root => out.push(1),
            Component::Cur => out.push(2),
            Component::Parent => out.push(3),
            Component::Normal(n) => {
                let chars = chars_of(n.as_str());
                let ghost codes = chars@.map_values(|c: char| (c as u32 + 1) as u32);
                out.push(4);
                let mut j: usize = 0;
                while j < chars.len()
                    invariant
                        j <= chars@.len(),
                        codes == chars@.map_values(|c: char| (c as u32 + 1) as u32),
                        out@ =~= before + seq![4u32] + codes.take(j as int),
                    decreases chars@.len() - j,
                {
                    let c = chars[j];
                    proof {
                        vstd::utf8::char_is_scalar(c);
                    }
                    out.push(c as u32 + 1);
                    assert(codes.take(j + 1) =~= codes.take(j as int).push(codes[j as int]));
                    j += 1;
                }
                assert(codes.take(j as int) =~= codes);
                out.push(0);
            },
        }
        assert(out@ =~= before + rank(c@[i as int]@));
        i += 1;
    }
    assert(text::views(c@).take(i as int) =~= text::views(c@));
    out
}

} // verus!
