//! How sizes are read and written.
use crate::binary64;
use crate::managed;
use crate::model;
use crate::options;
use crate::screen;
use crate::text;
use vstd::arithmetic::div_mod::*;
use vstd::arithmetic::mul::*;
use vstd::arithmetic::power2::*;
use vstd::prelude::*;

verus! {

proof fn lemma_granule(n: nat, d: nat, m: nat) -> (i: nat)
    requires
        d > 0,
        n < binary64::SIGNIFICANDS as nat * d * pow2(m),
    ensures
        i <= m,
        binary64::granule(n, d) == pow2(i),
    decreases m,
{
    let s = binary64::SIGNIFICANDS as nat;
    if n < s * d {
        assert(pow2(0) == 1) by {
            lemma2_to64();
        }
        0
    } else {
        if m == 0 {
            assert(pow2(0) == 1) by {
                lemma2_to64();
            }
            assert(s * d * pow2(0) == s * d) by (nonlinear_arith)
                requires
                    pow2(0) == 1,
            ;
            assert(false);
        }
        let k = (m - 1) as nat;
        lemma_pow2_unfold(m);
        assert(s * (2 * d) * pow2(k) == s * d * pow2(m)) by (nonlinear_arith)
            requires
                pow2(m) == 2 * pow2(k),
        ;
        let i = lemma_granule(n, 2 * d, k);
        lemma_pow2_unfold(i + 1);
        i + 1
    }
}

/// A whole number that the format holds exactly is held exactly, whatever fraction it comes from.
proof fn lemma_whole(c: nat, e: nat)
    requires
        e > 0,
        c < binary64::SIGNIFICANDS as nat,
    ensures
        binary64::nearest(c * e, e) == c * binary64::unit(),
{
    let u = binary64::unit();
    let n = c * e * u;
    let s = binary64::SIGNIFICANDS as nat;
    lemma_pow2_pos(1074);
    assert(n < s * e * pow2(1074)) by (nonlinear_arith)
        requires
            n == c * e * u,
            u == pow2(1074),
            u > 0,
            e > 0,
            c < s,
    ;
    let i = lemma_granule(n, e, 1074);
    let g = binary64::granule(n, e);
    let k = (1074 - i) as nat;
    lemma_pow2_pos(i);
    lemma_pow2_pos(k);
    lemma_pow2_adds(k, i);
    let q = c * pow2(k);
    let d = e * g;
    assert(d > 0) by (nonlinear_arith)
        requires
            d == e * g,
            e > 0,
            g > 0,
    ;
    assert(n == q * d) by (nonlinear_arith)
        requires
            n == c * e * u,
            u == pow2(k) * g,
            q == c * pow2(k),
            d == e * g,
    ;
    lemma_div_multiples_vanish(q as int, d as int);
    lemma_mod_multiples_basic(q as int, d as int);
    lemma_mul_is_commutative(q as int, d as int);
    assert(binary64::rounded(n, d) == q);
    assert(q * g == c * u) by (nonlinear_arith)
        requires
            u == pow2(k) * g,
            q == c * pow2(k),
    ;
}

proof fn lemma_unit_positive()
    ensures
        binary64::unit() > 0,
{
    lemma_pow2_pos(1074);
}

proof fn lemma_of_whole(n: nat)
    requires
        n < binary64::SIGNIFICANDS as nat,
    ensures
        binary64::of_whole(n) == n * binary64::unit(),
        binary64::truncated(n * binary64::unit()) == n,
        binary64::rounded(n * binary64::unit(), binary64::unit()) == n,
{
    lemma_unit_positive();
    lemma_whole(n, 1);
    lemma_div_multiples_vanish(n as int, binary64::unit() as int);
    lemma_mod_multiples_basic(n as int, binary64::unit() as int);
    lemma_mul_is_commutative(n as int, binary64::unit() as int);
}

proof fn lemma_times(n: nat, k: nat)
    requires
        n * k < binary64::SIGNIFICANDS as nat,
    ensures
        binary64::times(n * binary64::unit(), k) == n * k * binary64::unit(),
{
    let u = binary64::unit();
    lemma_unit_positive();
    assert(n * u * k == n * k * u) by (nonlinear_arith);
    lemma_whole(n * k, u);
}

proof fn lemma_over(n: nat, k: nat)
    requires
        k > 0,
        n < binary64::SIGNIFICANDS as nat,
    ensures
        binary64::over(n * k * binary64::unit(), k) == n * binary64::unit(),
{
    let u = binary64::unit();
    lemma_unit_positive();
    assert(k * u > 0) by (nonlinear_arith)
        requires
            k > 0,
            u > 0,
    ;
    assert(n * k * u == n * (k * u)) by (nonlinear_arith);
    lemma_whole(n, k * u);
}

/// A size that is a whole number of its unit is written as that number; below a thousand, of bytes, and
/// from there on of the unit that leaves less than a thousand.
pub proof fn law_whole_sizes_are_written(k: nat)
    requires
        k < 1000,
    ensures
        model::size_text(k) == text::decimal(k) + " B"@,
        k > 0 ==> model::size_text(k * 1_000) == text::decimal(k) + "."@ + text::decimal(0) + " "@
            + "KB"@,
        k > 0 ==> model::size_text(k * 1_000_000) == text::decimal(k) + "."@ + text::decimal(0)
            + " "@ + "MB"@,
        k > 0 ==> model::size_text(k * 1_000_000_000) == text::decimal(k) + "."@ + text::decimal(0)
            + " "@ + "GB"@,
        k > 0 ==> model::size_text(k * 1_000_000_000_000) == text::decimal(k) + "."@
            + text::decimal(0) + " "@ + "TB"@,
{
    let u = binary64::unit();
    lemma_unit_positive();
    lemma_reduced_stops(k, 0);
    lemma_of_whole(k);
    lemma_tenths(k);
    if k > 0 {
        lemma_reduced_stops(k, 1);
        lemma_reduced_stops(k, 2);
        lemma_reduced_stops(k, 3);
        lemma_reduced_stops(k, 4);
        lemma_of_whole(k * 1_000);
        lemma_of_whole(k * 1_000_000);
        lemma_of_whole(k * 1_000_000_000);
        lemma_of_whole(k * 1_000_000_000_000);
        lemma_reduced_goes_on(k, 0);
        lemma_reduced_goes_on(k, 1);
        lemma_reduced_goes_on(k * 1_000, 0);
        lemma_reduced_goes_on(k, 2);
        lemma_reduced_goes_on(k * 1_000, 1);
        lemma_reduced_goes_on(k * 1_000_000, 0);
        lemma_reduced_goes_on(k, 3);
        lemma_reduced_goes_on(k * 1_000, 2);
        lemma_reduced_goes_on(k * 1_000_000, 1);
        lemma_reduced_goes_on(k * 1_000_000_000, 0);
        assert(k * 1_000 * 1_000 == k * 1_000_000);
        assert(k * 1_000_000 * 1_000 == k * 1_000_000_000);
        assert(k * 1_000_000_000 * 1_000 == k * 1_000_000_000_000);
    }
}

proof fn lemma_tenths(k: nat)
    requires
        k < 1000,
    ensures
        binary64::rounded(10 * (k * binary64::unit()), binary64::unit()) == 10 * k,
        (10 * k) / 10 == k,
        (10 * k) % 10 == 0,
{
    let u = binary64::unit();
    lemma_of_whole(10 * k);
    assert(10 * (k * u) == 10 * k * u) by (nonlinear_arith);
}

proof fn lemma_reduced_stops(k: nat, times: nat)
    requires
        k < 1000,
    ensures
        binary64::reduced(k * binary64::unit(), times) == (k * binary64::unit(), times),
{
    let u = binary64::unit();
    lemma_unit_positive();
    assert(k * u < 1000 * u) by (nonlinear_arith)
        requires
            k < 1000,
            u > 0,
    ;
}

proof fn lemma_reduced_goes_on(n: nat, times: nat)
    requires
        0 < n,
        n < binary64::SIGNIFICANDS as nat,
        times < 4,
    ensures
        binary64::reduced(n * 1_000 * binary64::unit(), times) == binary64::reduced(
            n * binary64::unit(),
            times + 1,
        ),
{
    let u = binary64::unit();
    lemma_unit_positive();
    lemma_over(n, 1_000);
    assert(n * 1_000 * u >= 1_000 * u) by (nonlinear_arith)
        requires
            n > 0,
            u > 0,
    ;
}

/// What a unit of Docker stands for.
pub open spec fn docker_unit(unit: Seq<char>, scale: nat) -> bool {
    ||| unit.len() == 0 && scale == 1
    ||| unit == seq!['B'] && scale == 1
    ||| unit == seq!['k', 'B'] && scale == 1_000
    ||| unit == seq!['K', 'B'] && scale == 1_000
    ||| unit == seq!['M', 'B'] && scale == 1_000_000
    ||| unit == seq!['G', 'B'] && scale == 1_000_000_000
    ||| unit == seq!['T', 'B'] && scale == 1_000_000_000_000
}

proof fn lemma_units(unit: Seq<char>)
    ensures
        managed::unit_scale(unit) matches Some(scale) ==> docker_unit(unit, scale),
        forall|scale: nat|
            #[trigger] docker_unit(unit, scale) ==> managed::unit_scale(unit) == Some(scale),
{
    reveal_strlit("B");
    reveal_strlit("");
    reveal_strlit("kB");
    reveal_strlit("KB");
    reveal_strlit("MB");
    reveal_strlit("GB");
    reveal_strlit("TB");
    assert("B"@ =~= seq!['B']);
    assert(""@ =~= Seq::<char>::empty());
    assert("kB"@ =~= seq!['k', 'B']);
    assert("KB"@ =~= seq!['K', 'B']);
    assert("MB"@ =~= seq!['M', 'B']);
    assert("GB"@ =~= seq!['G', 'B']);
    assert("TB"@ =~= seq!['T', 'B']);
    assert("B"@.len() == 1 && "kB"@.len() == 2 && "KB"@.len() == 2 && "MB"@.len() == 2 && "GB"@.len()
        == 2 && "TB"@.len() == 2);
    assert("kB"@[0] == 'k' && "KB"@[0] == 'K' && "MB"@[0] == 'M' && "GB"@[0] == 'G' && "TB"@[0]
        == 'T');
    if unit.len() == 0 {
        assert(unit =~= ""@);
    }
}

/// A whole number of a unit of Docker stands for as many bytes as the unit does, times the number; with
/// anything else behind the number, it stands for nothing.
pub proof fn law_docker_sizes_are_read(n: nat, unit: Seq<char>, scale: nat)
    requires
        docker_unit(unit, scale),
        n * scale < 0x20_0000_0000_0000,
    ensures
        managed::docker_size(text::decimal(n) + unit) == Some((n * scale) as u64),
{
    let d = text::decimal(n);
    let s = d + unit;
    crate::laws::words::law_numbers_are_read_back(n);
    lemma_units(unit);
    assert(forall|i: int| 0 <= i < s.len() ==> !text::is_white(#[trigger] s[i])) by {
        assert forall|i: int| 0 <= i < s.len() implies !text::is_white(#[trigger] s[i]) by {
            if i < d.len() {
                assert(text::is_digit(d[i]));
            }
        }
    }
    assert(text::trim_start(s) == s);
    lemma_no_white(s);
    assert(s.take(s.len() as int) =~= s);
    assert(text::first_word(s) == Some(s));
    lemma_numeric_length(d, unit);
    assert(s.take(d.len() as int) =~= d);
    assert(s.skip(d.len() as int) =~= unit);
    lemma_digits(d);
    assert(scale >= 1);
    assert(n <= n * scale) by (nonlinear_arith)
        requires
            scale >= 1,
    ;
    vstd::arithmetic::power::lemma_pow0(10);
    lemma_of_whole(n);
    lemma_times(n, scale);
    lemma_of_whole(n * scale);
}

proof fn lemma_no_white(s: Seq<char>)
    requires
        forall|i: int| 0 <= i < s.len() ==> !text::is_white(#[trigger] s[i]),
    ensures
        text::white_position(s) == s.len(),
    decreases s.len(),
{
    if s.len() > 0 {
        let rest = s.drop_first();
        assert forall|i: int| 0 <= i < rest.len() implies !text::is_white(#[trigger] rest[i]) by {
            assert(s[i + 1] == rest[i]);
        }
        lemma_no_white(rest);
    }
}

proof fn lemma_numeric_length(d: Seq<char>, unit: Seq<char>)
    requires
        forall|i: int| 0 <= i < d.len() ==> managed::numeric(#[trigger] d[i]),
        unit.len() > 0 ==> !managed::numeric(unit[0]),
    ensures
        managed::numeric_length(d + unit) == d.len(),
    decreases d.len(),
{
    let s = d + unit;
    if d.len() > 0 {
        let rest = d.drop_first();
        assert forall|i: int| 0 <= i < rest.len() implies managed::numeric(#[trigger] rest[i]) by {
            assert(d[i + 1] == rest[i]);
        }
        lemma_numeric_length(rest, unit);
        assert(s.skip(1) =~= rest + unit);
        assert(s[0] == d[0]);
        assert(managed::numeric(d[0]));
    } else {
        assert(s =~= unit);
    }
}

proof fn lemma_digits(d: Seq<char>)
    requires
        text::all_digits(d),
    ensures
        managed::digits_value(d) == text::number(d),
        managed::digit_count(d) == d.len(),
        managed::decimal_places(d) == 0,
    decreases d.len(),
{
    assert forall|i: int| 0 <= i < d.len() implies #[trigger] d[i] != '.' by {
        assert(text::is_digit(d[i]));
    }
    assert(!d.contains('.'));
    if d.len() > 0 {
        let first = d.drop_last();
        assert forall|i: int| 0 <= i < first.len() implies text::is_digit(#[trigger] first[i]) by {
            assert(d[i] == first[i]);
        }
        lemma_digits(first);
        assert(d[d.len() - 1] == d.last());
    }
}

/// The digits behind the point of a number count as its places, and all its digits as its value.
pub proof fn law_points_are_read(a: Seq<char>, b: Seq<char>)
    requires
        text::all_digits(a),
        text::all_digits(b),
    ensures
        managed::digits_value(a + seq!['.'] + b) == text::number(a + b),
        managed::decimal_places(a + seq!['.'] + b) == b.len(),
        managed::is_decimal(a + seq!['.'] + b) <==> a.len() + b.len() > 0,
        managed::digit_count(a + seq!['.'] + b) == a.len() + b.len(),
    decreases b.len(),
{
    let s = a + seq!['.'] + b;
    if b.len() == 0 {
        assert(s.drop_last() =~= a);
        assert(a + b =~= a);
        lemma_digits(a);
    } else {
        let c = b.drop_last();
        assert forall|i: int| 0 <= i < c.len() implies text::is_digit(#[trigger] c[i]) by {
            assert(b[i] == c[i]);
        }
        law_points_are_read(a, c);
        assert(s.drop_last() =~= a + seq!['.'] + c);
        assert((a + b).drop_last() =~= a + c);
        assert(text::is_digit(b[b.len() - 1]));
        assert(s.last() == b[b.len() - 1]);
        assert(s[a.len() as int] == '.');
        assert(s.contains('.'));
    }
}

/// Only a number with a unit of Docker stands for a size: its first word begins with the number, and
/// goes on with nothing but the unit.
pub proof fn law_other_words_are_no_sizes(s: Seq<char>)
    ensures
        managed::docker_size(s) is Some ==> (text::first_word(s) matches Some(w) && exists|
            k: int,
            scale: nat,
        |
            0 < k <= w.len() && #[trigger] docker_unit(w.skip(k), scale) && (forall|i: int|
                0 <= i < k ==> text::is_digit(#[trigger] w[i]) || w[i] == '.')),
{
    if managed::docker_size(s) is Some {
        let w = text::first_word(s)->0;
        let k = lemma_number(w);
        lemma_units(w.skip(k));
        let scale = managed::unit_scale(w.skip(k))->0;
        assert(docker_unit(w.skip(k), scale));
        if k == 0 {
            assert(managed::digit_count(w.take(0)) == 0);
        }
    }
}

proof fn lemma_number(w: Seq<char>) -> (k: int)
    ensures
        k == managed::numeric_length(w),
        0 <= k <= w.len(),
        forall|i: int| 0 <= i < k ==> text::is_digit(#[trigger] w[i]) || w[i] == '.',
    decreases w.len(),
{
    if w.len() == 0 || !managed::numeric(w[0]) {
        0
    } else {
        let rest = w.skip(1);
        let k = lemma_number(rest);
        assert forall|i: int| 0 <= i < k + 1 implies text::is_digit(#[trigger] w[i]) || w[i]
            == '.' by {
            if i > 0 {
                assert(rest[i - 1] == w[i]);
            }
        }
        k + 1
    }
}

/// A time of whole seconds is written as that number.
pub proof fn law_whole_seconds_are_written(k: nat)
    requires
        k < 1_000_000_000,
    ensures
        screen::seconds_text(k * 1_000_000_000) == text::decimal(k) + "."@ + text::decimal(0),
        options::exact_seconds(k * 1_000_000_000) == text::decimal(k) + "."@ + text::decimal(0)
            + text::decimal(0),
{
    let u = binary64::unit();
    let nanos = k * 1_000_000_000;
    lemma_unit_positive();
    assert(nanos / 1_000_000_000 == k && nanos % 1_000_000_000 == 0);
    lemma_of_whole(k);
    lemma_of_whole(0);
    lemma_over(0, 1_000_000_000);
    assert(0 * u == 0);
    lemma_whole(k, u);
    lemma_of_whole(10 * k);
    lemma_of_whole(100 * k);
    assert(10 * (k * u) == 10 * k * u) by (nonlinear_arith);
    assert(100 * (k * u) == 100 * k * u) by (nonlinear_arith);
    assert((10 * k) / 10 == k && (10 * k) % 10 == 0);
    assert((100 * k) / 100 == k && (100 * k) % 10 == 0 && (100 * k) / 10 == 10 * k);
}

} // verus!
