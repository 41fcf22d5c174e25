//! Year folders: the assets grouped by year, newest year first, with their
//! number and total size, and the selection carried over from before.

use vstd::prelude::*;
use crate::model::{Asset, YearBucket};
use crate::naming::year_ok;
use crate::state::ImmichApp;
use crate::text::{chars_eq, chars_of, string_of};

verus! {

// ---------------------------------------------------------------------------
// Order of texts
// ---------------------------------------------------------------------------

/// `a` comes before `b` as `String`'s order has it: by code point, a proper
/// prefix first.
pub open spec fn lex_lt(a: Seq<char>, b: Seq<char>) -> bool
    decreases a.len(),
{
    if a.len() == 0 {
        b.len() > 0
    } else if b.len() == 0 {
        false
    } else if a[0] != b[0] {
        a[0] < b[0]
    } else {
        lex_lt(a.drop_first(), b.drop_first())
    }
}

/// The order is irreflexive and asymmetric.
pub proof fn lemma_lex_asym(a: Seq<char>, b: Seq<char>)
    ensures
        !(lex_lt(a, b) && lex_lt(b, a)),
        !lex_lt(a, a),
    decreases a.len(),
{
    if a.len() > 0 && b.len() > 0 && a[0] == b[0] {
        lemma_lex_asym(a.drop_first(), b.drop_first());
    }
    if a.len() > 0 {
        lemma_lex_asym(a.drop_first(), a.drop_first());
    }
}

/// The order is total on distinct texts.
pub proof fn lemma_lex_total(a: Seq<char>, b: Seq<char>)
    ensures
        a == b || lex_lt(a, b) || lex_lt(b, a),
    decreases a.len(),
{
    if a.len() > 0 && b.len() > 0 {
        if a[0] == b[0] {
            lemma_lex_total(a.drop_first(), b.drop_first());
            if a.drop_first() == b.drop_first() {
                assert(a =~= seq![a[0]] + a.drop_first());
                assert(b =~= seq![b[0]] + b.drop_first());
            }
        }
    } else if a.len() == 0 && b.len() == 0 {
        assert(a =~= b);
    }
}

/// The order is transitive.
pub proof fn lemma_lex_trans(a: Seq<char>, b: Seq<char>, c: Seq<char>)
    requires
        lex_lt(a, b),
        lex_lt(b, c),
    ensures
        lex_lt(a, c),
    decreases a.len(),
{
    if a.len() > 0 && b.len() > 0 && c.len() > 0 {
        if a[0] == b[0] && b[0] == c[0] {
            lemma_lex_trans(a.drop_first(), b.drop_first(), c.drop_first());
        }
    }
}

/// `String`'s order compares at the first position where two texts
/// differ, whatever their lengths: the text with the smaller character
/// there comes first.
pub proof fn lemma_lex_first_difference(a: Seq<char>, b: Seq<char>, i: int)
    requires
        0 <= i < a.len(),
        i < b.len(),
        a.take(i) == b.take(i),
        a[i] < b[i],
    ensures
        lex_lt(a, b),
        !lex_lt(b, a),
    decreases i,
{
    if i > 0 {
        assert(a[0] == a.take(i)[0] && b[0] == b.take(i)[0]);
        assert(a.drop_first().take(i - 1) =~= b.drop_first().take(i - 1)) by {
            assert forall|j: int| 0 <= j < i - 1 implies a.drop_first()[j] == b.drop_first()[j] by {
                assert(a.take(i)[j + 1] == b.take(i)[j + 1]);
                assert(a.take(i)[j + 1] == a[j + 1]);
                assert(b.take(i)[j + 1] == b[j + 1]);
                assert(a.drop_first()[j] == a[j + 1]);
                assert(b.drop_first()[j] == b[j + 1]);
            }
        }
        lemma_lex_first_difference(a.drop_first(), b.drop_first(), i - 1);
    }
}

/// A proper prefix comes first.
pub proof fn lemma_lex_proper_prefix(a: Seq<char>, b: Seq<char>)
    requires
        a.len() < b.len(),
        b.take(a.len() as int) == a,
    ensures
        lex_lt(a, b),
        !lex_lt(b, a),
    decreases a.len(),
{
    if a.len() > 0 {
        assert(a[0] == b.take(a.len() as int)[0]);
        assert(b.drop_first().take(a.drop_first().len() as int) =~= a.drop_first()) by {
            assert forall|j: int| 0 <= j < a.len() - 1 implies b.drop_first()[j] == a.drop_first()[j] by {
                assert(b.take(a.len() as int)[j + 1] == a[j + 1]);
            }
        }
        lemma_lex_proper_prefix(a.drop_first(), b.drop_first());
    }
}

/// Whether `a` comes before `b`.
pub fn lex_less(a: &Vec<char>, b: &Vec<char>) -> (r: bool)
    ensures
        r == lex_lt(a@, b@),
{
    let mut i: usize = 0;
    proof {
        assert(a@.skip(0) =~= a@);
        assert(b@.skip(0) =~= b@);
    }
    while i < a.len() && i < b.len() && a[i] == b[i]
        invariant
            i <= a.len(),
            i <= b.len(),
            lex_lt(a@, b@) == lex_lt(a@.skip(i as int), b@.skip(i as int)),
        decreases a.len() - i,
    {
        proof {
            assert(a@.skip(i as int).drop_first() =~= a@.skip(i + 1));
            assert(b@.skip(i as int).drop_first() =~= b@.skip(i + 1));
        }
        i = i + 1;
    }
    if i == a.len() {
        i < b.len()
    } else if i == b.len() {
        false
    } else {
        a[i] < b[i]
    }
}

// ---------------------------------------------------------------------------
// Buckets
// ---------------------------------------------------------------------------

/// How many entries have the year `y`.
pub open spec fn count_year(years: Seq<Seq<char>>, y: Seq<char>) -> nat
    decreases years.len(),
{
    if years.len() == 0 {
        0
    } else {
        count_year(years.drop_last(), y) + if years.last() == y {
            1nat
        } else {
            0nat
        }
    }
}

/// A size as it counts towards a total: negative sizes count as zero.
pub open spec fn counted_size(s: i64) -> int {
    if s > 0 {
        s as int
    } else {
        0
    }
}

/// The total size of the entries with the year `y`.
pub open spec fn size_year(years: Seq<Seq<char>>, sizes: Seq<i64>, y: Seq<char>) -> int
    decreases years.len(),
{
    if years.len() == 0 || sizes.len() < years.len() {
        0
    } else {
        size_year(years.drop_last(), sizes.take(years.len() - 1), y) + if years.last() == y {
            counted_size(sizes[years.len() - 1])
        } else {
            0
        }
    }
}

/// The total size of every year fits in an `i64`.
pub open spec fn year_sizes_fit(years: Seq<Seq<char>>, sizes: Seq<i64>) -> bool {
    forall|y: Seq<char>| #[trigger] size_year(years, sizes, y) <= i64::MAX
}

/// Some bucket of `prev` with the year `y` is selected.
pub open spec fn was_selected(prev: Seq<YearBucket>, y: Seq<char>) -> bool {
    exists|i: int| 0 <= i < prev.len() && prev[i].selected && (#[trigger] prev[i]).year@ == y
}

/// `out` are the year buckets of the entries: one per year that occurs,
/// newest (greatest) year first, each with the number and total size of its
/// entries, and selected where a selected bucket of `prev` had its year.
pub open spec fn buckets_ok(
    out: Seq<YearBucket>,
    years: Seq<Seq<char>>,
    sizes: Seq<i64>,
    prev: Seq<YearBucket>,
) -> bool {
    &&& forall|i: int, j: int|
        0 <= i < j < out.len() ==> lex_lt((#[trigger] out[j]).year@, (#[trigger] out[i]).year@)
    &&& forall|y: Seq<char>|
        (exists|i: int| 0 <= i < out.len() && (#[trigger] out[i]).year@ == y) <==> years.contains(y)
    &&& forall|i: int|
        0 <= i < out.len() ==> {
            &&& (#[trigger] out[i]).count == count_year(years, out[i].year@)
            &&& out[i].total_size == size_year(years, sizes, out[i].year@)
            &&& out[i].selected == was_selected(prev, out[i].year@)
        }
}

/// A year's total is never negative.
pub proof fn lemma_size_year_nonneg(years: Seq<Seq<char>>, sizes: Seq<i64>, y: Seq<char>)
    ensures
        0 <= size_year(years, sizes, y),
    decreases years.len(),
{
    if years.len() > 0 && sizes.len() >= years.len() {
        lemma_size_year_nonneg(years.drop_last(), sizes.take(years.len() - 1), y);
    }
}

/// The number of entries the buckets count together.
pub open spec fn bucket_count_sum(out: Seq<YearBucket>) -> int
    decreases out.len(),
{
    if out.len() == 0 {
        0
    } else {
        bucket_count_sum(out.drop_last()) + out.last().count
    }
}

/// How many entries of `years` have the years of the buckets, together.
spec fn counts_over(out: Seq<YearBucket>, years: Seq<Seq<char>>) -> int
    decreases out.len(),
{
    if out.len() == 0 {
        0
    } else {
        counts_over(out.drop_last(), years) + count_year(years, out.last().year@)
    }
}

/// How many buckets have the year `y`.
spec fn occurrences(out: Seq<YearBucket>, y: Seq<char>) -> int
    decreases out.len(),
{
    if out.len() == 0 {
        0
    } else {
        occurrences(out.drop_last(), y) + if out.last().year@ == y {
            1int
        } else {
            0int
        }
    }
}

/// Some bucket has the year `y`.
spec fn has_bucket(out: Seq<YearBucket>, y: Seq<char>) -> bool {
    exists|i: int| 0 <= i < out.len() && (#[trigger] out[i]).year@ == y
}

/// No two buckets have the same year.
spec fn years_distinct(out: Seq<YearBucket>) -> bool {
    forall|i: int, j: int|
        0 <= i < j < out.len() ==> (#[trigger] out[i]).year@ != (#[trigger] out[j]).year@
}

/// Counting no entries gives nothing for any buckets.
proof fn lemma_counts_over_empty(out: Seq<YearBucket>)
    ensures
        counts_over(out, Seq::empty()) == 0,
    decreases out.len(),
{
    if out.len() > 0 {
        lemma_counts_over_empty(out.drop_last());
    }
}

/// One more entry adds one for each bucket with its year.
proof fn lemma_counts_over_push(out: Seq<YearBucket>, years: Seq<Seq<char>>, y: Seq<char>)
    ensures
        counts_over(out, years.push(y)) == counts_over(out, years) + occurrences(out, y),
    decreases out.len(),
{
    assert(years.push(y).drop_last() =~= years);
    if out.len() > 0 {
        lemma_counts_over_push(out.drop_last(), years, y);
    }
}

/// Among buckets of distinct years, a year occurs once where it occurs.
proof fn lemma_occurrences(out: Seq<YearBucket>, y: Seq<char>)
    requires
        years_distinct(out),
    ensures
        occurrences(out, y) == if has_bucket(out, y) {
            1int
        } else {
            0int
        },
    decreases out.len(),
{
    if out.len() > 0 {
        let p = out.drop_last();
        assert(years_distinct(p)) by {
            assert forall|i: int, j: int| 0 <= i < j < p.len() implies (#[trigger] p[i]).year@
                != (#[trigger] p[j]).year@ by {
                assert(p[i] == out[i] && p[j] == out[j]);
            }
        }
        lemma_occurrences(p, y);
        if exists|i: int| 0 <= i < p.len() && (#[trigger] p[i]).year@ == y {
            let i = choose|i: int| 0 <= i < p.len() && (#[trigger] p[i]).year@ == y;
            assert(out[i] == p[i]);
            assert(out.last().year@ != y);
            assert(out[i].year@ == y);
        } else {
            if exists|i: int| 0 <= i < out.len() && (#[trigger] out[i]).year@ == y {
                let i = choose|i: int| 0 <= i < out.len() && (#[trigger] out[i]).year@ == y;
                if i < p.len() {
                    assert(p[i] == out[i]);
                }
            }
        }
    }
}

/// Buckets of distinct years that cover every entry's year count every
/// entry once.
proof fn lemma_counts_over_all(out: Seq<YearBucket>, years: Seq<Seq<char>>)
    requires
        years_distinct(out),
        forall|k: int| 0 <= k < years.len() ==> has_bucket(out, #[trigger] years[k]),
    ensures
        counts_over(out, years) == years.len(),
    decreases years.len(),
{
    if years.len() == 0 {
        lemma_counts_over_empty(out);
        assert(years =~= Seq::<Seq<char>>::empty());
    } else {
        let p = years.drop_last();
        let y = years.last();
        assert forall|k: int| 0 <= k < p.len() implies has_bucket(out, #[trigger] p[k]) by {
            assert(p[k] == years[k]);
        }
        lemma_counts_over_all(out, p);
        lemma_counts_over_push(out, p, y);
        assert(p.push(y) =~= years);
        assert(years[years.len() - 1] == y);
        lemma_occurrences(out, y);
    }
}

/// Buckets that count each their own year's entries count, together, the
/// counts over their years.
proof fn lemma_bucket_sum_is_counts(out: Seq<YearBucket>, years: Seq<Seq<char>>)
    requires
        forall|i: int| 0 <= i < out.len() ==> (#[trigger] out[i]).count == count_year(years, out[i].year@),
    ensures
        bucket_count_sum(out) == counts_over(out, years),
    decreases out.len(),
{
    if out.len() > 0 {
        let p = out.drop_last();
        assert forall|i: int| 0 <= i < p.len() implies (#[trigger] p[i]).count == count_year(years, p[i].year@) by {
            assert(p[i] == out[i]);
        }
        lemma_bucket_sum_is_counts(p, years);
        assert(out[out.len() - 1] == out.last());
    }
}

/// The year buckets count every entry exactly once: their counts add up to
/// the number of entries.
pub proof fn lemma_bucket_counts_sum(
    out: Seq<YearBucket>,
    years: Seq<Seq<char>>,
    sizes: Seq<i64>,
    prev: Seq<YearBucket>,
)
    requires
        buckets_ok(out, years, sizes, prev),
    ensures
        bucket_count_sum(out) == years.len(),
{
    assert(years_distinct(out)) by {
        assert forall|i: int, j: int| 0 <= i < j < out.len() implies (#[trigger] out[i]).year@
            != (#[trigger] out[j]).year@ by {
            assert(lex_lt(out[j].year@, out[i].year@));
            lemma_lex_asym(out[i].year@, out[i].year@);
        }
    }
    assert forall|k: int| 0 <= k < years.len() implies has_bucket(out, #[trigger] years[k]) by {
        let y = years[k];
        assert(years.contains(y));
        assert(exists|i: int| 0 <= i < out.len() && (#[trigger] out[i]).year@ == y);
    }
    lemma_counts_over_all(out, years);
    lemma_bucket_sum_is_counts(out, years);
}

/// The year buckets of a list of assets count every asset exactly once.
pub proof fn lemma_buckets_count_assets(
    out: Seq<YearBucket>,
    assets: Seq<Asset>,
    years: Seq<Seq<char>>,
    sizes: Seq<i64>,
    prev: Seq<YearBucket>,
)
    requires
        years_ok(assets, years),
        buckets_ok(out, years, sizes, prev),
    ensures
        bucket_count_sum(out) == assets.len(),
{
    lemma_bucket_counts_sum(out, years, sizes, prev);
}

/// The texts come in strictly falling order.
spec fn falling(s: Seq<Seq<char>>) -> bool {
    forall|i: int, j: int| 0 <= i < j < s.len() ==> lex_lt(#[trigger] s[j], #[trigger] s[i])
}

/// Two lists in strictly falling order with the same texts are equal.
proof fn lemma_falling_unique(a: Seq<Seq<char>>, b: Seq<Seq<char>>)
    requires
        falling(a),
        falling(b),
        forall|y: Seq<char>| a.contains(y) <==> b.contains(y),
    ensures
        a == b,
    decreases a.len() + b.len(),
{
    if a.len() == 0 {
        if b.len() > 0 {
            assert(b.contains(b[0]));
        }
        assert(a =~= b);
    } else if b.len() == 0 {
        assert(a.contains(a[0]));
    } else {
        assert(a.contains(a[0]));
        assert(b.contains(b[0]));
        let k = choose|k: int| 0 <= k < b.len() && b[k] == a[0];
        let m = choose|m: int| 0 <= m < a.len() && a[m] == b[0];
        if k > 0 && m > 0 {
            assert(lex_lt(b[k], b[0]));
            assert(lex_lt(a[m], a[0]));
            lemma_lex_asym(a[0], b[0]);
        }
        assert(a[0] == b[0]);
        let a1 = a.drop_first();
        let b1 = b.drop_first();
        assert(falling(a1)) by {
            assert forall|i: int, j: int| 0 <= i < j < a1.len() implies lex_lt(
                #[trigger] a1[j],
                #[trigger] a1[i],
            ) by {
                assert(a1[i] == a[i + 1] && a1[j] == a[j + 1]);
            }
        }
        assert(falling(b1)) by {
            assert forall|i: int, j: int| 0 <= i < j < b1.len() implies lex_lt(
                #[trigger] b1[j],
                #[trigger] b1[i],
            ) by {
                assert(b1[i] == b[i + 1] && b1[j] == b[j + 1]);
            }
        }
        assert forall|y: Seq<char>| a1.contains(y) implies b1.contains(y) by {
            let i = choose|i: int| 0 <= i < a1.len() && a1[i] == y;
            assert(a[i + 1] == y);
            assert(lex_lt(a[i + 1], a[0]));
            lemma_lex_asym(y, y);
            assert(b.contains(y));
            let j = choose|j: int| 0 <= j < b.len() && b[j] == y;
            assert(j != 0);
            assert(b1[j - 1] == y);
        }
        assert forall|y: Seq<char>| b1.contains(y) implies a1.contains(y) by {
            let i = choose|i: int| 0 <= i < b1.len() && b1[i] == y;
            assert(b[i + 1] == y);
            assert(lex_lt(b[i + 1], b[0]));
            lemma_lex_asym(y, y);
            assert(a.contains(y));
            let j = choose|j: int| 0 <= j < a.len() && a[j] == y;
            assert(j != 0);
            assert(a1[j - 1] == y);
        }
        lemma_falling_unique(a1, b1);
        assert(a =~= seq![a[0]] + a1);
        assert(b =~= seq![b[0]] + b1);
    }
}

/// The years of the buckets, in order.
spec fn bucket_years(out: Seq<YearBucket>) -> Seq<Seq<char>> {
    Seq::new(out.len(), |i: int| out[i].year@)
}

/// The years of buckets that `buckets_ok` describes fall strictly and are
/// the years of the entries.
proof fn lemma_bucket_years(out: Seq<YearBucket>, years: Seq<Seq<char>>, sizes: Seq<i64>, prev: Seq<YearBucket>)
    requires
        buckets_ok(out, years, sizes, prev),
    ensures
        falling(bucket_years(out)),
        forall|y: Seq<char>| bucket_years(out).contains(y) <==> years.contains(y),
{
    let ys = bucket_years(out);
    assert forall|i: int, j: int| 0 <= i < j < ys.len() implies lex_lt(#[trigger] ys[j], #[trigger] ys[i]) by {
        assert(lex_lt(out[j].year@, out[i].year@));
    }
    assert forall|y: Seq<char>| ys.contains(y) <==> years.contains(y) by {
        if ys.contains(y) {
            let i = choose|i: int| 0 <= i < ys.len() && ys[i] == y;
            assert(out[i].year@ == y);
        }
        if years.contains(y) {
            let i = choose|i: int| 0 <= i < out.len() && (#[trigger] out[i]).year@ == y;
            assert(ys[i] == y);
        }
    }
}

/// Rebuilding the buckets of the same entries a second time, starting from
/// the buckets that the first rebuild gave, gives those buckets again: the
/// same years in the same order, with the same counts, totals and
/// selection.
pub proof fn lemma_rebuild_stable(
    first: Seq<YearBucket>,
    second: Seq<YearBucket>,
    years: Seq<Seq<char>>,
    sizes: Seq<i64>,
    prev: Seq<YearBucket>,
)
    requires
        buckets_ok(first, years, sizes, prev),
        buckets_ok(second, years, sizes, first),
    ensures
        second.len() == first.len(),
        forall|i: int|
            0 <= i < first.len() ==> (#[trigger] second[i]).year@ == first[i].year@
                && second[i].count == first[i].count && second[i].total_size == first[i].total_size
                && second[i].selected == first[i].selected,
{
    lemma_bucket_years(first, years, sizes, prev);
    lemma_bucket_years(second, years, sizes, first);
    assert forall|y: Seq<char>| bucket_years(first).contains(y) <==> bucket_years(second).contains(
        y,
    ) by {
        assert(bucket_years(first).contains(y) <==> years.contains(y));
        assert(bucket_years(second).contains(y) <==> years.contains(y));
    }
    lemma_falling_unique(bucket_years(first), bucket_years(second));
    assert(bucket_years(first).len() == bucket_years(second).len());
    assert forall|i: int| 0 <= i < first.len() implies (#[trigger] second[i]).year@ == first[i].year@
        && second[i].count == first[i].count && second[i].total_size == first[i].total_size
        && second[i].selected == first[i].selected by {
        assert(bucket_years(first)[i] == bucket_years(second)[i]);
        let y = first[i].year@;
        if was_selected(first, y) {
            let j = choose|j: int| 0 <= j < first.len() && first[j].selected && (#[trigger] first[j]).year@ == y;
            if j != i {
                if i < j {
                    assert(lex_lt(first[j].year@, first[i].year@));
                } else {
                    assert(lex_lt(first[i].year@, first[j].year@));
                }
                lemma_lex_asym(y, y);
            }
        }
        if first[i].selected {
            assert(was_selected(first, y));
        }
    }
}

/// The year totals grow with the entries.
proof fn lemma_size_year_prefix(years: Seq<Seq<char>>, sizes: Seq<i64>, y: Seq<char>, i: int)
    requires
        sizes.len() == years.len(),
        0 <= i <= years.len(),
    ensures
        size_year(years.take(i), sizes.take(i), y) <= size_year(years, sizes, y),
    decreases years.len() - i,
{
    if i < years.len() {
        lemma_size_year_prefix(years, sizes, y, i + 1);
        assert(years.take(i + 1).drop_last() =~= years.take(i));
        assert(sizes.take(i + 1).take(i) =~= sizes.take(i));
    } else {
        assert(years.take(i) =~= years);
        assert(sizes.take(i) =~= sizes);
    }
}

/// Whether a selected bucket of `prev` has the year `y`.
fn find_selected(prev: &Vec<YearBucket>, y: &Vec<char>) -> (b: bool)
    ensures
        b == was_selected(prev@, y@),
{
    let mut i: usize = 0;
    while i < prev.len()
        invariant
            i <= prev.len(),
            forall|a: int| 0 <= a < i ==> !(prev[a].selected && (#[trigger] prev[a]).year@ == y@),
        decreases prev.len() - i,
    {
        if prev[i].selected {
            let py = chars_of(prev[i].year.as_str());
            if chars_eq(&py, y) {
                return true;
            }
        }
        i = i + 1;
    }
    false
}

/// The year buckets of entries given by their years and sizes, newest year
/// first, keeping the selection of `prev`.
pub fn build_year_buckets(years: &Vec<String>, sizes: &Vec<i64>, prev: &Vec<YearBucket>) -> (out: Vec<
    YearBucket,
>)
    requires
        sizes.len() == years.len(),
        year_sizes_fit(years@.map_values(|s: String| s@), sizes@),
    ensures
        buckets_ok(out@, years@.map_values(|s: String| s@), sizes@, prev@),
{
    let ghost ys = years@.map_values(|s: String| s@);
    let mut out: Vec<YearBucket> = Vec::new();
    let mut keys: Vec<Vec<char>> = Vec::new();
    let mut i: usize = 0;
    while i < years.len()
        invariant
            i <= years.len(),
            sizes.len() == years.len(),
            ys == years@.map_values(|s: String| s@),
            year_sizes_fit(ys, sizes@),
            keys.len() == out.len(),
            out.len() <= i,
            forall|a: int| 0 <= a < keys.len() ==> (#[trigger] keys[a])@ == out[a].year@,
            buckets_ok(out@, ys.take(i as int), sizes@.take(i as int), prev@),
        decreases years.len() - i,
    {
        let y = chars_of(years[i].as_str());
        let s = sizes[i];
        let ghost old_out = out@;
        let ghost ys1 = ys.take(i + 1);
        let ghost ss1 = sizes@.take(i + 1);
        proof {
            assert(ys1.drop_last() =~= ys.take(i as int));
            assert(ss1.take(i as int) =~= sizes@.take(i as int));
            assert(ys1.last() == y@);
            assert(ss1[i as int] == s);
            lemma_size_year_prefix(ys, sizes@, y@, i + 1);
            lemma_size_year_nonneg(ys, sizes@, y@);
            assert(size_year(ys, sizes@, y@) <= i64::MAX);
            assert(ys.len() == sizes@.len());
            assert forall|z: Seq<char>| z != y@ implies count_year(ys1, z) == count_year(
                ys.take(i as int),
                z,
            ) && size_year(ys1, ss1, z) == size_year(ys.take(i as int), sizes@.take(i as int), z)
                by {}
            assert(count_year(ys1, y@) == count_year(ys.take(i as int), y@) + 1);
            assert(size_year(ys1, ss1, y@) == size_year(ys.take(i as int), sizes@.take(i as int), y@)
                + counted_size(s));
            assert forall|z: Seq<char>| ys1.contains(z) <==> ys.take(i as int).contains(z) || z
                == y@ by {
                if ys1.contains(z) && z != y@ {
                    let w = choose|w: int| 0 <= w < ys1.len() && ys1[w] == z;
                    assert(ys.take(i as int)[w] == z);
                }
                if ys.take(i as int).contains(z) {
                    let w = choose|w: int| 0 <= w < i && ys.take(i as int)[w] == z;
                    assert(ys1[w] == z);
                }
                if z == y@ {
                    assert(ys1[i as int] == z);
                }
            }
        }
        // look for the bucket of this year
        let mut j: usize = 0;
        while j < keys.len() && !chars_eq(&keys[j], &y)
            invariant
                j <= keys.len(),
                keys.len() == out.len(),
                forall|a: int| 0 <= a < j ==> (#[trigger] keys[a])@ != y@,
            decreases keys.len() - j,
        {
            j = j + 1;
        }
        if j < keys.len() {
            let add: i64 = if s > 0 { s } else { 0 };
            proof {
                lemma_count_le(ys.take(i as int), y@);
                assert(out[j as int].year@ == y@);
                assert(out[j as int].total_size == size_year(
                    ys.take(i as int),
                    sizes@.take(i as int),
                    y@,
                ));
            }
            let b = YearBucket {
                year: out[j].year.clone(),
                count: out[j].count + 1,
                total_size: out[j].total_size + add,
                selected: out[j].selected,
            };
            out.set(j, b);
            proof {
                assert forall|a: int| 0 <= a < out.len() implies (#[trigger] out[a]).year@
                    == old_out[a].year@ by {}
                assert forall|a: int, c: int|
                    0 <= a < c < out.len() implies lex_lt((#[trigger] out[c]).year@, (#[trigger] out[a]).year@) by {
                    assert(lex_lt(old_out[c].year@, old_out[a].year@));
                }
                assert forall|a: int| 0 <= a < out.len() implies {
                    &&& (#[trigger] out[a]).count == count_year(ys1, out[a].year@)
                    &&& out[a].total_size == size_year(ys1, ss1, out[a].year@)
                    &&& out[a].selected == was_selected(prev@, out[a].year@)
                } by {
                    if a != j {
                        assert(out[a] == old_out[a]);
                        if a < j {
                            assert(lex_lt(old_out[j as int].year@, old_out[a].year@));
                        } else {
                            assert(lex_lt(old_out[a].year@, old_out[j as int].year@));
                        }
                        lemma_lex_asym(y@, y@);
                        assert(old_out[a].year@ != y@);
                    }
                }
                assert forall|z: Seq<char>|
                    (exists|a: int| 0 <= a < out.len() && (#[trigger] out[a]).year@ == z)
                        <==> ys1.contains(z) by {
                    if exists|a: int| 0 <= a < out.len() && (#[trigger] out[a]).year@ == z {
                        let a = choose|a: int| 0 <= a < out.len() && (#[trigger] out[a]).year@ == z;
                        assert(old_out[a].year@ == z);
                    }
                    if ys.take(i as int).contains(z) {
                        let a = choose|a: int|
                            0 <= a < old_out.len() && (#[trigger] old_out[a]).year@ == z;
                        assert(out[a].year@ == z);
                    }
                }
            }
        } else {
            // a new year: it goes before the first bucket of an older year
            let mut p: usize = 0;
            while p < keys.len() && !lex_less(&keys[p], &y)
                invariant
                    p <= keys.len(),
                    keys.len() == out.len(),
                    forall|a: int| 0 <= a < keys.len() ==> (#[trigger] keys[a])@ == out[a].year@,
                    forall|a: int| 0 <= a < p ==> !lex_lt((#[trigger] keys[a])@, y@),
                decreases keys.len() - p,
            {
                p = p + 1;
            }
            let selected = find_selected(prev, &y);
            let add: i64 = if s > 0 { s } else { 0 };
            proof {
                assert(!ys.take(i as int).contains(y@)) by {
                    if ys.take(i as int).contains(y@) {
                        let a = choose|a: int| 0 <= a < old_out.len() && (#[trigger] old_out[a]).year@ == y@;
                        assert(keys[a]@ == y@);
                    }
                }
                assert(count_year(ys.take(i as int), y@) == 0) by {
                    lemma_count_absent(ys.take(i as int), y@);
                }
                assert(size_year(ys.take(i as int), sizes@.take(i as int), y@) == 0) by {
                    lemma_size_absent(ys.take(i as int), sizes@.take(i as int), y@);
                }
            }
            proof {
                assert forall|a: int| 0 <= a < p implies !lex_lt(#[trigger] old_out[a].year@, y@) by {
                    assert(keys[a]@ == old_out[a].year@);
                }
                if p < old_out.len() {
                    assert(keys[p as int]@ == old_out[p as int].year@);
                    assert(lex_lt(old_out[p as int].year@, y@));
                }
            }
            let b = YearBucket {
                year: string_of(&y),
                count: 1,
                total_size: add,
                selected,
            };
            out.insert(p, b);
            keys.insert(p, y);
            proof {
                assert forall|a: int, c: int|
                    0 <= a < c < out.len() implies lex_lt((#[trigger] out[c]).year@, (#[trigger] out[a]).year@) by {
                    if a < p && c == p {
                        assert(!lex_lt(old_out[a].year@, y@));
                        lemma_lex_total(old_out[a].year@, y@);
                        assert(old_out[a].year@ != y@);
                    } else if a == p && c > p {
                        if p < old_out.len() {
                            assert(lex_lt(old_out[p as int].year@, y@));
                            if c - 1 > p {
                                assert(lex_lt(old_out[c - 1].year@, old_out[p as int].year@));
                                lemma_lex_trans(old_out[c - 1].year@, old_out[p as int].year@, y@);
                            }
                        }
                    } else if a < p && c > p {
                        assert(lex_lt(old_out[c - 1].year@, old_out[a].year@));
                    } else if a > p {
                        assert(lex_lt(old_out[c - 1].year@, old_out[a - 1].year@));
                    } else {
                        assert(lex_lt(old_out[c].year@, old_out[a].year@));
                    }
                }
                assert forall|z: Seq<char>|
                    (exists|a: int| 0 <= a < out.len() && (#[trigger] out[a]).year@ == z)
                        <==> ys1.contains(z) by {
                    if exists|a: int| 0 <= a < out.len() && (#[trigger] out[a]).year@ == z {
                        let a = choose|a: int| 0 <= a < out.len() && (#[trigger] out[a]).year@ == z;
                        if a < p {
                            assert(old_out[a].year@ == z);
                        } else if a > p {
                            assert(old_out[a - 1].year@ == z);
                        }
                    }
                    if ys.take(i as int).contains(z) {
                        let a = choose|a: int|
                            0 <= a < old_out.len() && (#[trigger] old_out[a]).year@ == z;
                        if a < p {
                            assert(out[a].year@ == z);
                        } else {
                            assert(out[a + 1].year@ == z);
                        }
                    }
                    if z == y@ {
                        assert(out[p as int].year@ == z);
                    }
                }
                assert forall|a: int| 0 <= a < out.len() implies {
                    &&& (#[trigger] out[a]).count == count_year(ys1, out[a].year@)
                    &&& out[a].total_size == size_year(ys1, ss1, out[a].year@)
                    &&& out[a].selected == was_selected(prev@, out[a].year@)
                } by {
                    if a < p {
                        assert(out[a] == old_out[a]);
                        assert(old_out[a].year@ != y@);
                    } else if a > p {
                        assert(out[a] == old_out[a - 1]);
                        assert(keys[a]@ == old_out[a - 1].year@);
                        assert(old_out[a - 1].year@ != y@);
                    }
                }
            }
        }
        i = i + 1;
    }
    proof {
        assert(ys.take(years.len() as int) =~= ys);
        assert(sizes@.take(years.len() as int) =~= sizes@);
    }
    out
}

/// A year occurs at most as often as there are entries.
proof fn lemma_count_le(years: Seq<Seq<char>>, y: Seq<char>)
    ensures
        count_year(years, y) <= years.len(),
    decreases years.len(),
{
    if years.len() > 0 {
        lemma_count_le(years.drop_last(), y);
    }
}

/// A year that no entry has counts nothing.
proof fn lemma_count_absent(years: Seq<Seq<char>>, y: Seq<char>)
    requires
        !years.contains(y),
    ensures
        count_year(years, y) == 0,
    decreases years.len(),
{
    if years.len() > 0 {
        assert(!years.drop_last().contains(y)) by {
            if years.drop_last().contains(y) {
                let w = choose|w: int| 0 <= w < years.drop_last().len() && years.drop_last()[w] == y;
                assert(years[w] == y);
            }
        }
        assert(years[years.len() - 1] != y);
        lemma_count_absent(years.drop_last(), y);
    }
}

/// A year that no entry has sums to nothing.
proof fn lemma_size_absent(years: Seq<Seq<char>>, sizes: Seq<i64>, y: Seq<char>)
    requires
        !years.contains(y),
    ensures
        size_year(years, sizes, y) == 0,
    decreases years.len(),
{
    if years.len() > 0 && sizes.len() >= years.len() {
        assert(!years.drop_last().contains(y)) by {
            if years.drop_last().contains(y) {
                let w = choose|w: int| 0 <= w < years.drop_last().len() && years.drop_last()[w] == y;
                assert(years[w] == y);
            }
        }
        assert(years[years.len() - 1] != y);
        lemma_size_absent(years.drop_last(), sizes.take(years.len() - 1), y);
    }
}

/// The sizes of the assets, in order.
pub open spec fn asset_sizes(assets: Seq<Asset>) -> Seq<i64> {
    assets.map_values(|a: Asset| a.file_size_in_byte)
}

/// The total size of every year fits in an `i64`, whichever years
/// `asset_year` gives the assets.
pub open spec fn year_totals_fit(assets: Seq<Asset>) -> bool {
    forall|ys: Seq<Seq<char>>| #[trigger] years_ok(assets, ys) ==> year_sizes_fit(ys, asset_sizes(assets))
}

/// `years` are years `asset_year` may give the assets, one per asset.
pub open spec fn years_ok(assets: Seq<Asset>, years: Seq<Seq<char>>) -> bool {
    &&& years.len() == assets.len()
    &&& forall|i: int| 0 <= i < assets.len() ==> year_ok(assets[i], #[trigger] years[i])
}

/// The years and sizes of the assets.
pub(crate) fn years_and_sizes(assets: &Vec<Asset>) -> (out: (Vec<String>, Vec<i64>))
    ensures
        years_ok(assets@, out.0@.map_values(|s: String| s@)),
        out.1@ == asset_sizes(assets@),
{
    let mut years: Vec<String> = Vec::new();
    let mut sizes: Vec<i64> = Vec::new();
    let mut i: usize = 0;
    while i < assets.len()
        invariant
            i <= assets.len(),
            years.len() == i,
            sizes@ == asset_sizes(assets@.take(i as int)),
            forall|a: int| 0 <= a < i ==> year_ok(assets@[a], (#[trigger] years[a])@),
        decreases assets.len() - i,
    {
        years.push(ImmichApp::asset_year(&assets[i]));
        sizes.push(assets[i].file_size_in_byte);
        proof {
            assert(asset_sizes(assets@.take(i + 1)) =~= asset_sizes(assets@.take(i as int)).push(
                assets@[i as int].file_size_in_byte,
            ));
        }
        i = i + 1;
    }
    proof {
        assert(assets@.take(assets.len() as int) =~= assets@);
        let ys = years@.map_values(|s: String| s@);
        assert forall|a: int| 0 <= a < assets.len() implies year_ok(assets@[a], #[trigger] ys[a]) by {
            assert(ys[a] == years[a]@);
        }
    }
    (years, sizes)
}

impl ImmichApp {
    /// Groups the assets without album into year folders, newest first,
    /// keeping which years were selected.
    pub fn rebuild_year_buckets(&mut self)
        requires
            year_totals_fit(old(self).no_album_assets@),
        ensures
            exists|ys: Seq<Seq<char>>|
                #[trigger] years_ok(old(self).no_album_assets@, ys) && buckets_ok(
                    final(self).year_buckets@,
                    ys,
                    asset_sizes(old(self).no_album_assets@),
                    old(self).year_buckets@,
                ),
            *final(self) == (ImmichApp { year_buckets: final(self).year_buckets, ..*old(self) }),
    {
        let (years, sizes) = years_and_sizes(&self.no_album_assets);
        let buckets = build_year_buckets(&years, &sizes, &self.year_buckets);
        self.year_buckets = buckets;
    }

    /// Groups all assets into year folders, newest first, keeping which
    /// years were selected.
    pub fn rebuild_all_year_buckets(&mut self)
        requires
            year_totals_fit(old(self).all_assets@),
        ensures
            exists|ys: Seq<Seq<char>>|
                #[trigger] years_ok(old(self).all_assets@, ys) && buckets_ok(
                    final(self).all_year_buckets@,
                    ys,
                    asset_sizes(old(self).all_assets@),
                    old(self).all_year_buckets@,
                ),
            *final(self) == (ImmichApp { all_year_buckets: final(self).all_year_buckets, ..*old(self) }),
    {
        let (years, sizes) = years_and_sizes(&self.all_assets);
        let buckets = build_year_buckets(&years, &sizes, &self.all_year_buckets);
        self.all_year_buckets = buckets;
    }
}

} // verus!
