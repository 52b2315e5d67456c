use crate::convert::{
    all_composite, authors_of, converted_all, key_body, key_is_composite, key_name, key_version,
    models, PackageJsonLicenses,
};
use crate::order::{
    lemma_text_less_irreflexive, lemma_text_less_total, lemma_text_less_transitive, text_less,
};
use crate::pipeline::normalized;
use crate::record::{same_package, CargoTomlLicense, LicenseModel};
use crate::report::{
    comes_before, escaped, kept_records, place_of, retained, sorted_records, ESCAPED_GREATER_THAN,
    ESCAPED_LESS_THAN, GREATER_THAN, LESS_THAN,
};
use crate::text::{
    first_index_of, lemma_first_index_of_bounds, lemma_first_index_of_stands, occurs_at, replaced,
};
use vstd::prelude::*;
use vstd::seq_lib::{to_multiset_build, to_multiset_contains, to_multiset_insert, to_multiset_len};

verus! {

/// An input that was read in the normalized shape is taken as it is,
/// whatever the other reading gave: as many entries, in the same order,
/// each with every field as it was read. What the alternate shape stands
/// for has one entry for each key, without a description and with authors
/// made from publisher and address alone.
pub proof fn law_shapes(
    given: Vec<CargoTomlLicense>,
    from: PackageJsonLicenses,
    other: Option<PackageJsonLicenses>,
)
    requires
        all_composite(from.entries()),
    ensures
        normalized(Some(given), other) == Some(models(given@)),
        models(given@).len() == given@.len(),
        forall|i: int| 0 <= i < given@.len() ==> (#[trigger] models(given@)[i]) == given@[i]@,
        normalized(None, Some(from)) == Some(converted_all(from.entries())),
        converted_all(from.entries()).len() == from.entries().len(),
        forall|i: int|
            0 <= i < from.entries().len() ==> {
                let entry = #[trigger] converted_all(from.entries())[i];
                let value = from.entries()[i].1@;
                entry.description is None && entry.authors == authors_of(
                    value.publisher,
                    value.email,
                )
            },
{
}

/// A key that holds a name and a version is its name, an `@` and its
/// version: different keys never stand for the same name and version.
pub proof fn law_key_rebuilds(key: Seq<char>)
    requires
        key_is_composite(key),
    ensures
        key_name(key) + seq!['@'] + key_version(key) == key,
{
    let body = key_body(key);
    let at = first_index_of(body, '@');
    lemma_first_index_of_bounds(body, '@');
    lemma_first_index_of_stands(body, '@');
    assert(body =~= body.take(at) + seq!['@'] + body.skip(at + 1));
    assert(key_name(key) + seq!['@'] + key_version(key) =~= key);
}

/// Different keys of the alternate shape stand for entries that differ in
/// name or version: a collection in which no key occurs twice gives entries
/// of which no two agree in both.
pub proof fn law_alternate_entries_distinct(from: PackageJsonLicenses)
    requires
        from.wf(),
        all_composite(from.entries()),
    ensures
        distinct_packages(converted_all(from.entries())),
{
    let entries = from.entries();
    let made = converted_all(entries);
    assert forall|i: int, j: int| 0 <= i < j < made.len() implies !same_package(
        #[trigger] made[i],
        #[trigger] made[j],
    ) by {
        law_key_rebuilds(entries[i].0@);
        law_key_rebuilds(entries[j].0@);
        assert(entries[i].0@ != entries[j].0@);
    }
}

/// Filters whose tests agree on every text keep the same entries.
pub proof fn law_equal_tests_keep_the_same(
    records: Seq<LicenseModel>,
    name_test: spec_fn(Seq<char>) -> bool,
    license_test: spec_fn(Seq<char>) -> bool,
    other_name_test: spec_fn(Seq<char>) -> bool,
    other_license_test: spec_fn(Seq<char>) -> bool,
    name_invert: bool,
    license_invert: bool,
)
    requires
        forall|text: Seq<char>| #[trigger] name_test(text) == other_name_test(text),
        forall|text: Seq<char>| #[trigger] license_test(text) == other_license_test(text),
    ensures
        kept_records(records, name_test, license_test, name_invert, license_invert)
            == kept_records(
            records,
            other_name_test,
            other_license_test,
            name_invert,
            license_invert,
        ),
{
    assert(name_test =~= other_name_test);
    assert(license_test =~= other_license_test);
}

/// The filters keep exactly the entries that pass both of them.
pub proof fn law_kept_records(
    records: Seq<LicenseModel>,
    name_test: spec_fn(Seq<char>) -> bool,
    license_test: spec_fn(Seq<char>) -> bool,
    name_invert: bool,
    license_invert: bool,
    entry: LicenseModel,
)
    ensures
        kept_records(records, name_test, license_test, name_invert, license_invert).contains(
            entry,
        ) <==> records.contains(entry) && retained(
            name_test,
            license_test,
            name_invert,
            license_invert,
            entry,
        ),
{
    let keep = |r: LicenseModel|
        retained(name_test, license_test, name_invert, license_invert, r);
    let kept = kept_records(records, name_test, license_test, name_invert, license_invert);
    assert(kept == records.filter(keep));
    if kept.contains(entry) {
        let i = choose|i: int| 0 <= i < kept.len() && kept[i] == entry;
        records.lemma_filter_pred(keep, i);
        records.lemma_filter_contains_rev(keep, entry);
    }
    if records.contains(entry) && keep(entry) {
        let i = choose|i: int| 0 <= i < records.len() && records[i] == entry;
        records.lemma_filter_contains(keep, i);
    }
}

/// No entry comes before itself.
pub proof fn lemma_comes_before_irreflexive(a: LicenseModel)
    ensures
        !comes_before(a, a),
{
    lemma_text_less_irreflexive(a.name);
    lemma_text_less_irreflexive(a.version);
}

/// What comes before an entry comes before all that the entry comes before.
pub proof fn lemma_comes_before_transitive(a: LicenseModel, b: LicenseModel, c: LicenseModel)
    requires
        comes_before(a, b),
        comes_before(b, c),
    ensures
        comes_before(a, c),
{
    if text_less(a.name, b.name) && text_less(b.name, c.name) {
        lemma_text_less_transitive(a.name, b.name, c.name);
    }
    if text_less(a.version, b.version) && text_less(b.version, c.version) {
        lemma_text_less_transitive(a.version, b.version, c.version);
    }
}

/// Of two entries one comes before the other, unless they agree in name and
/// version: the order of a report leaves open only the order of entries
/// that are equal.
pub proof fn law_comes_before_total(a: LicenseModel, b: LicenseModel)
    ensures
        comes_before(a, b) || comes_before(b, a) || same_package(a, b),
{
    lemma_text_less_total(a.name, b.name);
    lemma_text_less_total(a.version, b.version);
}

/// Whether entries stand in the order of a report: none comes before one
/// that stands in front of it.
pub open spec fn ordered(records: Seq<LicenseModel>) -> bool {
    forall|i: int, j: int|
        0 <= i < j < records.len() ==> !comes_before(#[trigger] records[j], #[trigger] records[i])
}

/// The test for the entries of one name and version.
pub open spec fn same_as(key: LicenseModel) -> spec_fn(LicenseModel) -> bool {
    |r: LicenseModel| same_package(r, key)
}

/// `place_of` lies within the sequence or at its end; `entry` comes before
/// nothing in front of that place, and before what stands at it.
pub proof fn lemma_place_of_splits(records: Seq<LicenseModel>, entry: LicenseModel)
    ensures
        0 <= place_of(records, entry) <= records.len(),
        forall|j: int|
            0 <= j < place_of(records, entry) ==> !comes_before(entry, #[trigger] records[j]),
        place_of(records, entry) < records.len() ==> comes_before(
            entry,
            records[place_of(records, entry)],
        ),
    decreases records.len(),
{
    if records.len() == 0 || comes_before(entry, records[0]) {
    } else {
        let rest = records.drop_first();
        lemma_place_of_splits(rest, entry);
        let place = place_of(records, entry);
        assert forall|j: int| 0 <= j < place implies !comes_before(
            entry,
            #[trigger] records[j],
        ) by {
            if j > 0 {
                assert(records[j] == rest[j - 1]);
            }
        }
        if place < records.len() {
            assert(records[place] == rest[place - 1]);
        }
    }
}

/// An entry put at its place among ordered entries leaves them ordered.
pub proof fn lemma_insert_keeps_order(records: Seq<LicenseModel>, entry: LicenseModel)
    requires
        ordered(records),
    ensures
        ordered(records.insert(place_of(records, entry), entry)),
{
    lemma_place_of_splits(records, entry);
    let place = place_of(records, entry);
    let with = records.insert(place, entry);
    assert forall|i: int, j: int| 0 <= i < j < with.len() implies !comes_before(
        #[trigger] with[j],
        #[trigger] with[i],
    ) by {
        if j == place {
            assert(with[i] == records[i]);
        } else if i == place {
            assert(with[j] == records[j - 1]);
            if comes_before(with[j], entry) {
                lemma_comes_before_transitive(records[j - 1], entry, records[place]);
                if j - 1 == place {
                    lemma_comes_before_irreflexive(records[place]);
                } else {
                    assert(!comes_before(records[j - 1], records[place]));
                }
            }
        } else {
            let i0 = if i < place {
                i
            } else {
                i - 1
            };
            let j0 = if j < place {
                j
            } else {
                j - 1
            };
            assert(with[i] == records[i0]);
            assert(with[j] == records[j0]);
            assert(!comes_before(records[j0], records[i0]));
        }
    }
}

/// The entries of a report stand in order: none comes before one that
/// stands in front of it. So they are also in the order of their names
/// alone, in which entries are compared.
pub proof fn law_sorted_records_ordered(records: Seq<LicenseModel>)
    ensures
        ordered(sorted_records(records)),
        sorted_records(records).len() == records.len(),
        forall|i: int, j: int|
            0 <= i < j < records.len() ==> !text_less(
                (#[trigger] sorted_records(records)[j]).name,
                (#[trigger] sorted_records(records)[i]).name,
            ),
    decreases records.len(),
{
    if records.len() > 0 {
        let front = sorted_records(records.drop_last());
        law_sorted_records_ordered(records.drop_last());
        lemma_place_of_splits(front, records.last());
        lemma_insert_keeps_order(front, records.last());
    }
    let sorted = sorted_records(records);
    assert forall|i: int, j: int| 0 <= i < j < records.len() implies !text_less(
        (#[trigger] sorted[j]).name,
        (#[trigger] sorted[i]).name,
    ) by {
        assert(!comes_before(sorted[j], sorted[i]));
    }
}

/// Ordering neither drops an entry nor adds one.
pub proof fn law_sorted_records_permutes(records: Seq<LicenseModel>)
    ensures
        sorted_records(records).to_multiset() == records.to_multiset(),
    decreases records.len(),
{
    if records.len() > 0 {
        let front = sorted_records(records.drop_last());
        law_sorted_records_permutes(records.drop_last());
        lemma_place_of_splits(front, records.last());
        to_multiset_insert(front, place_of(front, records.last()), records.last());
        to_multiset_build(records.drop_last(), records.last());
        assert(records.drop_last().push(records.last()) =~= records);
    }
}

/// Whether no two of the entries agree in name and version.
pub open spec fn distinct_packages(records: Seq<LicenseModel>) -> bool {
    forall|i: int, j: int|
        0 <= i < j < records.len() ==> !same_package(#[trigger] records[i], #[trigger] records[j])
}

/// Entries without a repeated name and version, taken in another order,
/// are again without one.
proof fn lemma_distinct_packages_any_order(a: Seq<LicenseModel>, b: Seq<LicenseModel>)
    requires
        a.to_multiset() == b.to_multiset(),
        distinct_packages(a),
    ensures
        distinct_packages(b),
{
    assert(a.no_duplicates()) by {
        assert forall|i: int, j: int| 0 <= i < a.len() && 0 <= j < a.len() && i != j implies a[i]
            != a[j] by {
            if i < j {
                assert(!same_package(a[i], a[j]));
            } else {
                assert(!same_package(a[j], a[i]));
            }
        }
    }
    a.lemma_multiset_has_no_duplicates();
    b.lemma_multiset_has_no_duplicates_conv();
    assert forall|i: int, j: int| 0 <= i < j < b.len() implies !same_package(
        #[trigger] b[i],
        #[trigger] b[j],
    ) by {
        to_multiset_contains(b, b[i]);
        to_multiset_contains(b, b[j]);
        to_multiset_contains(a, b[i]);
        to_multiset_contains(a, b[j]);
        assert(b.contains(b[i]));
        assert(b.contains(b[j]));
        let p = choose|p: int| 0 <= p < a.len() && a[p] == b[i];
        let q = choose|q: int| 0 <= q < a.len() && a[q] == b[j];
        assert(b[i] != b[j]);
        if p < q {
            assert(!same_package(a[p], a[q]));
        } else {
            assert(!same_package(a[q], a[p]));
        }
    }
}

/// Two ordered sequences of the same entries, none with a repeated name
/// and version, are one sequence.
proof fn lemma_one_order(s: Seq<LicenseModel>, t: Seq<LicenseModel>)
    requires
        ordered(s),
        ordered(t),
        distinct_packages(s),
        distinct_packages(t),
        s.len() == t.len(),
        forall|x: LicenseModel| s.contains(x) <==> t.contains(x),
    ensures
        s == t,
    decreases s.len(),
{
    if s.len() == 0 {
        assert(s =~= t);
    } else {
        let n = s.len() - 1;
        let last_s = s[n];
        let last_t = t[n];
        assert(s.contains(last_s));
        assert(t.contains(last_t));
        let i = choose|i: int| 0 <= i < t.len() && t[i] == last_s;
        let j = choose|j: int| 0 <= j < s.len() && s[j] == last_t;
        if i < n {
            assert(!comes_before(t[n], t[i]));
            assert(!same_package(t[i], t[n]));
            law_comes_before_total(last_s, last_t);
            if j < n {
                assert(!comes_before(s[n], s[j]));
            }
        }
        assert(last_s == last_t);
        let front_s = s.drop_last();
        let front_t = t.drop_last();
        assert forall|x: LicenseModel| front_s.contains(x) <==> front_t.contains(x) by {
            if front_s.contains(x) {
                let k = choose|k: int| 0 <= k < front_s.len() && front_s[k] == x;
                assert(s[k] == x);
                assert(!same_package(s[k], s[n]));
                assert(t.contains(x));
                let m = choose|m: int| 0 <= m < t.len() && t[m] == x;
                assert(front_t[m] == x);
            }
            if front_t.contains(x) {
                let k = choose|k: int| 0 <= k < front_t.len() && front_t[k] == x;
                assert(t[k] == x);
                assert(!same_package(t[k], t[n]));
                assert(s.contains(x));
                let m = choose|m: int| 0 <= m < s.len() && s[m] == x;
                assert(front_s[m] == x);
            }
        }
        assert forall|a: int, b: int| 0 <= a < b < front_s.len() implies !comes_before(
            #[trigger] front_s[b],
            #[trigger] front_s[a],
        ) && !same_package(front_s[a], front_s[b]) by {
            assert(!comes_before(s[b], s[a]));
            assert(!same_package(s[a], s[b]));
        }
        assert forall|a: int, b: int| 0 <= a < b < front_t.len() implies !comes_before(
            #[trigger] front_t[b],
            #[trigger] front_t[a],
        ) && !same_package(front_t[a], front_t[b]) by {
            assert(!comes_before(t[b], t[a]));
            assert(!same_package(t[a], t[b]));
        }
        lemma_one_order(front_s, front_t);
        assert(s =~= front_s.push(last_s));
        assert(t =~= front_t.push(last_t));
    }
}

/// The order of a report does not depend on the order in which the entries
/// are given, as long as no two of them agree in name and version. By
/// `law_alternate_entries_distinct` the entries of the alternate shape are
/// such, in whatever order its keys are read.
pub proof fn law_sorted_records_any_order(a: Seq<LicenseModel>, b: Seq<LicenseModel>)
    requires
        a.to_multiset() == b.to_multiset(),
        distinct_packages(a),
    ensures
        sorted_records(a) == sorted_records(b),
{
    let s = sorted_records(a);
    let t = sorted_records(b);
    law_sorted_records_ordered(a);
    law_sorted_records_ordered(b);
    law_sorted_records_permutes(a);
    law_sorted_records_permutes(b);
    to_multiset_len(a);
    to_multiset_len(b);
    lemma_distinct_packages_any_order(a, s);
    lemma_distinct_packages_any_order(a, t);
    assert forall|x: LicenseModel| s.contains(x) <==> t.contains(x) by {
        to_multiset_contains(s, x);
        to_multiset_contains(t, x);
    }
    lemma_one_order(s, t);
}

/// A sequence in which nothing passes a test is filtered to nothing.
pub proof fn lemma_filter_none(s: Seq<LicenseModel>, pred: spec_fn(LicenseModel) -> bool)
    requires
        forall|i: int| 0 <= i < s.len() ==> !pred(#[trigger] s[i]),
    ensures
        s.filter(pred) == Seq::<LicenseModel>::empty(),
    decreases s.len(),
{
    reveal(Seq::filter);
    if s.len() > 0 {
        assert forall|i: int| 0 <= i < s.drop_last().len() implies !pred(
            #[trigger] s.drop_last()[i],
        ) by {
            assert(s.drop_last()[i] == s[i]);
        }
        lemma_filter_none(s.drop_last(), pred);
    } else {
        assert(s.filter(pred) =~= Seq::<LicenseModel>::empty());
    }
}

/// Entries of one name and version leave the ordering in the order in which
/// they went in.
pub proof fn law_sorted_records_stable(records: Seq<LicenseModel>, key: LicenseModel)
    ensures
        sorted_records(records).filter(same_as(key)) == records.filter(same_as(key)),
    decreases records.len(),
{
    reveal(Seq::filter);
    if records.len() > 0 {
        let pred = same_as(key);
        let entry = records.last();
        let front = sorted_records(records.drop_last());
        law_sorted_records_stable(records.drop_last(), key);
        law_sorted_records_ordered(records.drop_last());
        lemma_place_of_splits(front, entry);
        let place = place_of(front, entry);
        let head = front.take(place);
        let tail = front.skip(place);
        let one = seq![entry];
        assert(front =~= head + tail);
        assert(front.insert(place, entry) =~= head + one + tail);
        Seq::filter_distributes_over_add(head, tail, pred);
        Seq::filter_distributes_over_add(head, one, pred);
        Seq::filter_distributes_over_add(head + one, tail, pred);
        assert(one.drop_last() =~= Seq::<LicenseModel>::empty());
        assert(one.last() == entry);
        assert(Seq::<LicenseModel>::empty().filter(pred) =~= Seq::<LicenseModel>::empty());
        if pred(entry) {
            assert(one.filter(pred) =~= one);
            assert forall|j: int| 0 <= j < tail.len() implies !pred(#[trigger] tail[j]) by {
                assert(tail[j] == front[place + j]);
                if pred(tail[j]) {
                    lemma_comes_before_irreflexive(entry);
                    if j > 0 {
                        assert(!comes_before(front[place + j], front[place]));
                    }
                }
            }
            lemma_filter_none(tail, pred);
            assert(sorted_records(records).filter(pred) =~= front.filter(pred).push(entry));
        } else {
            assert(one.filter(pred) =~= Seq::<LicenseModel>::empty());
            assert(sorted_records(records).filter(pred) =~= front.filter(pred));
        }
    }
}

/// Where a character is replaced by a text that does not hold it, the
/// result does not hold it.
pub proof fn lemma_replaced_drops_char(s: Seq<char>, c: char, to: Seq<char>)
    requires
        !to.contains(c),
    ensures
        !replaced(s, seq![c], to).contains(c),
    decreases s.len(),
{
    let out = replaced(s, seq![c], to);
    if s.len() > 0 {
        assert(occurs_at(s, 0, seq![c]) <==> s[0] == c) by {
            if s[0] == c {
                assert(s.subrange(0, 1) =~= seq![c]);
            } else {
                assert(s.subrange(0, 1)[0] == s[0]);
            }
        }
        lemma_replaced_drops_char(s.skip(1), c, to);
        let rest = replaced(s.skip(1), seq![c], to);
        if out.contains(c) {
            let i = choose|i: int| 0 <= i < out.len() && out[i] == c;
            if s[0] == c {
                assert(out == to + rest);
                if i < to.len() {
                    assert(to[i] == c);
                } else {
                    assert(rest[i - to.len()] == c);
                }
            } else {
                assert(out == seq![s[0]] + rest);
                if i > 0 {
                    assert(rest[i - 1] == c);
                }
            }
        }
    }
}

/// A character that neither the text nor what is put in holds is not in the
/// result of a replacement.
pub proof fn lemma_replaced_keeps_absent(s: Seq<char>, from: Seq<char>, to: Seq<char>, c: char)
    requires
        !s.contains(c),
        !to.contains(c),
    ensures
        !replaced(s, from, to).contains(c),
    decreases s.len(),
{
    let out = replaced(s, from, to);
    if s.len() > 0 {
        let step: int = if from.len() > 0 && occurs_at(s, 0, from) {
            from.len() as int
        } else {
            1
        };
        let rest = replaced(s.skip(step), from, to);
        assert forall|k: int| 0 <= k < s.skip(step).len() implies s.skip(step)[k] != c by {
            assert(s[k + step] != c);
        }
        lemma_replaced_keeps_absent(s.skip(step), from, to, c);
        if out.contains(c) {
            let i = choose|i: int| 0 <= i < out.len() && out[i] == c;
            if from.len() > 0 && occurs_at(s, 0, from) {
                assert(out == to + rest);
                if i < to.len() {
                    assert(to[i] == c);
                } else {
                    assert(rest[i - to.len()] == c);
                }
            } else {
                assert(out == seq![s[0]] + rest);
                if i > 0 {
                    assert(rest[i - 1] == c);
                } else {
                    assert(s[0] == c);
                }
            }
        }
    }
}

/// Escaped authors hold neither `<` nor `>`.
pub proof fn law_escaped_has_no_angle_brackets(authors: Seq<char>)
    ensures
        !escaped(authors).contains('<'),
        !escaped(authors).contains('>'),
{
    reveal_strlit("<");
    reveal_strlit(">");
    reveal_strlit("&lt;");
    reveal_strlit("&gt;");
    assert(LESS_THAN@ =~= seq!['<']);
    assert(GREATER_THAN@ =~= seq!['>']);
    assert(ESCAPED_LESS_THAN@ =~= seq!['&', 'l', 't', ';']);
    assert(ESCAPED_GREATER_THAN@ =~= seq!['&', 'g', 't', ';']);
    let first = replaced(authors, LESS_THAN@, ESCAPED_LESS_THAN@);
    lemma_replaced_drops_char(authors, '<', ESCAPED_LESS_THAN@);
    lemma_replaced_drops_char(first, '>', ESCAPED_GREATER_THAN@);
    lemma_replaced_keeps_absent(first, GREATER_THAN@, ESCAPED_GREATER_THAN@, '<');
}

} // verus!
