//! The library-wide laws, each proved against the contracts of the
//! collector and the emitter.

use vstd::prelude::*;
use vstd::utf8::valid_utf8;

use crate::collect::spec_collect;
use crate::collect::spec_collect_entries;
use crate::collect::upsert;
use crate::encoding::EncodingPolicy;
use crate::encoding::spec_encode;
use crate::emit::emitted_text;
use crate::emit::first_error;
use crate::emit::joined;
use crate::emit::lemma_run_prefix;
use crate::emit::success_objects;
use crate::json::json_file_object;
use crate::model::EntryView;
use crate::model::distinct_keys;
use crate::model::ErrorKind;
use crate::model::ErrorView;
use crate::model::FetchView;
use crate::model::FileAttrs;
use crate::model::ListView;
use crate::model::pairs_view;

verus! {

/// On a failure-free delivery the array has exactly one member per
/// delivered result, in delivery order; when results are delivered in
/// input order, the members appear in input order.
pub proof fn lemma_success_output(results: Seq<Result<FileAttrs, ErrorKind>>)
    requires
        forall|i: int| 0 <= i < results.len() ==> results[i] is Ok,
    ensures
        first_error(results) is None,
        success_objects(results).len() == results.len(),
        forall|i: int|
            0 <= i < results.len() ==> success_objects(results)[i] == json_file_object(
                results[i]->Ok_0.file_name@,
                pairs_view(results[i]->Ok_0.attrs@),
            ),
    decreases results.len(),
{
    if results.len() == 0 {
    } else {
        let rest = results.drop_first();
        lemma_success_output(rest);
        assert(forall|i: int| 0 <= i < rest.len() ==> rest[i] == results[i + 1]);
    }
}

/// A run over a non-empty file list in which every file listed no
/// attributes succeeds, and its array holds one object per file, in
/// order, each with an empty attribute mapping.
pub proof fn lemma_all_files_empty(
    files: Seq<Seq<char>>,
    results: Seq<Result<FileAttrs, ErrorKind>>,
    policy: EncodingPolicy,
)
    requires
        files.len() > 0,
        results.len() == files.len(),
        forall|i: int| 0 <= i < results.len() ==> results[i] is Ok,
        forall|i: int| 0 <= i < results.len() ==> results[i]->Ok_0.file_name@ == files[i],
        forall|i: int|
            0 <= i < results.len() ==> pairs_view(results[i]->Ok_0.attrs@) == spec_collect(
                files[i],
                ListView::Names(Seq::empty()),
                policy,
            )->Ok_0,
    ensures
        first_error(results) is None,
        success_objects(results).len() == files.len(),
        forall|i: int|
            0 <= i < results.len() ==> success_objects(results)[i] == json_file_object(
                files[i],
                Seq::empty(),
            ),
{
    lemma_success_output(results);
    assert forall|i: int| 0 <= i < results.len() implies success_objects(results)[i]
        == json_file_object(files[i], Seq::empty()) by {
        assert(spec_collect(files[i], ListView::Names(Seq::empty()), policy) == Ok::<
            _,
            ErrorView,
        >(Seq::<(Seq<char>, Seq<char>)>::empty()));
    }
}

/// Collection is a function of the store's outcomes and the policy alone:
/// two collections of an unmodified file under the same policy yield
/// identical results.
pub proof fn lemma_collect_deterministic(
    file: Seq<char>,
    listing: ListView,
    policy: EncodingPolicy,
    r1: Result<Seq<(Seq<char>, Seq<char>)>, ErrorView>,
    r2: Result<Seq<(Seq<char>, Seq<char>)>, ErrorView>,
)
    requires
        r1 == spec_collect(file, listing, policy),
        r2 == spec_collect(file, listing, policy),
    ensures
        r1 == r2,
{
}

/// An upsert under a different name leaves a name absent.
proof fn lemma_upsert_other_absent(
    pairs: Seq<(Seq<char>, Seq<char>)>,
    name: Seq<char>,
    text: Seq<char>,
    other: Seq<char>,
)
    requires
        name != other,
        forall|j: int| 0 <= j < pairs.len() ==> pairs[j].0 != other,
    ensures
        forall|j: int|
            0 <= j < upsert(pairs, name, text).len() ==> upsert(pairs, name, text)[j].0 != other,
    decreases pairs.len(),
{
    let u = upsert(pairs, name, text);
    if pairs.len() == 0 {
        assert(u[0].0 == name);
    } else if pairs[0].0 == name {
        assert forall|j: int| 0 <= j < u.len() implies u[j].0 != other by {
            if j > 0 {
                assert(u[j] == pairs.drop_first()[j - 1]);
                assert(pairs[j].0 != other);
            }
        }
    } else {
        lemma_upsert_other_absent(pairs.drop_first(), name, text, other);
        let ur = upsert(pairs.drop_first(), name, text);
        assert forall|j: int| 0 <= j < u.len() implies u[j].0 != other by {
            if j == 0 {
                assert(u[j] == pairs[0]);
            } else {
                assert(u[j] == ur[j - 1]);
            }
        }
    }
}

/// Every binding in an upsert carries the upserted name or one already
/// present.
proof fn lemma_upsert_keys(pairs: Seq<(Seq<char>, Seq<char>)>, name: Seq<char>, text: Seq<char>)
    ensures
        forall|j: int|
            0 <= j < upsert(pairs, name, text).len() ==> upsert(pairs, name, text)[j].0 == name
                || (exists|k: int| 0 <= k < pairs.len() && pairs[k].0 == #[trigger] upsert(
                pairs,
                name,
                text,
            )[j].0),
    decreases pairs.len(),
{
    let u = upsert(pairs, name, text);
    if pairs.len() == 0 {
    } else if pairs[0].0 == name {
        assert forall|j: int| 0 <= j < u.len() implies u[j].0 == name || (exists|k: int|
            0 <= k < pairs.len() && pairs[k].0 == u[j].0) by {
            if j > 0 {
                assert(u[j] == pairs[j]);
            }
        }
    } else {
        lemma_upsert_keys(pairs.drop_first(), name, text);
        let ur = upsert(pairs.drop_first(), name, text);
        assert forall|j: int| 0 <= j < u.len() implies u[j].0 == name || (exists|k: int|
            0 <= k < pairs.len() && pairs[k].0 == u[j].0) by {
            if j == 0 {
                assert(u[0] == pairs[0]);
                assert(pairs[0].0 == u[0].0);
            } else {
                assert(u[j] == ur[j - 1]);
                if ur[j - 1].0 != name {
                    let k = choose|k: int|
                        0 <= k < pairs.drop_first().len() && pairs.drop_first()[k].0 == ur[j
                            - 1].0;
                    assert(pairs[k + 1].0 == u[j].0);
                }
            }
        }
    }
}

/// An upsert keeps the attribute names distinct.
proof fn lemma_upsert_distinct(
    pairs: Seq<(Seq<char>, Seq<char>)>,
    name: Seq<char>,
    text: Seq<char>,
)
    requires
        distinct_keys(pairs),
    ensures
        distinct_keys(upsert(pairs, name, text)),
    decreases pairs.len(),
{
    let u = upsert(pairs, name, text);
    if pairs.len() == 0 {
    } else if pairs[0].0 == name {
        assert forall|i: int, j: int| 0 <= i < j < u.len() implies u[i].0 != u[j].0 by {
            assert(u[j] == pairs[j]);
            if i > 0 {
                assert(u[i] == pairs[i]);
            }
        }
    } else {
        assert(distinct_keys(pairs.drop_first()));
        lemma_upsert_distinct(pairs.drop_first(), name, text);
        lemma_upsert_keys(pairs.drop_first(), name, text);
        let ur = upsert(pairs.drop_first(), name, text);
        assert forall|i: int, j: int| 0 <= i < j < u.len() implies u[i].0 != u[j].0 by {
            if i == 0 {
                assert(u[j] == ur[j - 1]);
                if ur[j - 1].0 == pairs[0].0 {
                    assert(ur[j - 1].0 != name);
                    let k = choose|k: int|
                        0 <= k < pairs.drop_first().len() && pairs.drop_first()[k].0 == ur[j
                            - 1].0;
                    assert(pairs[k + 1].0 == pairs[0].0);
                }
            } else {
                assert(u[i] == ur[i - 1]);
                assert(u[j] == ur[j - 1]);
            }
        }
    }
}

/// The collected attribute mapping binds each attribute name at most once.
pub proof fn lemma_collect_unique_keys(
    file: Seq<char>,
    entries: Seq<EntryView>,
    policy: EncodingPolicy,
    attrs: Seq<(Seq<char>, Seq<char>)>,
)
    requires
        spec_collect_entries(file, entries, policy) == Ok::<_, ErrorView>(attrs),
    ensures
        distinct_keys(attrs),
    decreases entries.len(),
{
    if entries.len() == 0 {
    } else {
        let front = entries.drop_last();
        let acc = spec_collect_entries(file, front, policy);
        assert(acc is Ok);
        lemma_collect_unique_keys(file, front, policy, acc->Ok_0);
        let entry = entries.last();
        match entry.fetched {
            FetchView::Value(v) => {
                match spec_encode(v, policy) {
                    Some(text) => {
                        lemma_upsert_distinct(acc->Ok_0, entry.name, text);
                    },
                    None => {},
                }
            },
            FetchView::Missing => {},
            FetchView::Failed(_) => {},
        }
    }
}

/// Under the `Utf8` policy a value that fails text validation is dropped:
/// when every listed occurrence of a name carries a value that is not
/// valid UTF-8, the name is absent from the file's attribute map.
pub proof fn lemma_utf8_invalid_absent(
    file: Seq<char>,
    entries: Seq<EntryView>,
    name: Seq<char>,
    attrs: Seq<(Seq<char>, Seq<char>)>,
)
    requires
        spec_collect_entries(file, entries, EncodingPolicy::Utf8) == Ok::<_, ErrorView>(attrs),
        forall|i: int|
            0 <= i < entries.len() && entries[i].name == name ==> (entries[i].fetched matches
            FetchView::Value(v) && !valid_utf8(v)),
    ensures
        forall|j: int| 0 <= j < attrs.len() ==> attrs[j].0 != name,
    decreases entries.len(),
{
    if entries.len() == 0 {
    } else {
        let front = entries.drop_last();
        let acc = spec_collect_entries(file, front, EncodingPolicy::Utf8);
        assert(acc is Ok);
        lemma_utf8_invalid_absent(file, front, name, acc->Ok_0);
        let entry = entries.last();
        if entry.name == name {
            assert(entries[entries.len() - 1].name == name);
        } else {
            match entry.fetched {
                FetchView::Value(v) => {
                    match spec_encode(v, EncodingPolicy::Utf8) {
                        Some(text) => {
                            lemma_upsert_other_absent(acc->Ok_0, entry.name, text, name);
                        },
                        None => {},
                    }
                },
                FetchView::Missing => {},
                FetchView::Failed(_) => {},
            }
        }
    }
}

/// A file with exactly one listed attribute, whose value the active
/// policy can render, yields a single-entry attribute map.
pub proof fn lemma_single_attribute(file: Seq<char>, entry: EntryView, policy: EncodingPolicy)
    requires
        entry.fetched is Value,
        spec_encode(entry.fetched->Value_0, policy) is Some,
    ensures
        spec_collect(file, ListView::Names(seq![entry]), policy) == Ok::<_, ErrorView>(
            seq![(entry.name, spec_encode(entry.fetched->Value_0, policy).unwrap())],
        ),
{
    let text = spec_encode(entry.fetched->Value_0, policy).unwrap();
    let entries = seq![entry];
    assert(entries.drop_last() =~= Seq::<EntryView>::empty());
    assert(spec_collect_entries(file, entries.drop_last(), policy) == Ok::<_, ErrorView>(Seq::<
        (Seq<char>, Seq<char>),
    >::empty()));
    assert(entries.last() == entry);
    assert(upsert(Seq::empty(), entry.name, text) =~= seq![(entry.name, text)]);
}

/// A structural failure aborts the whole run: the first failing result is
/// the run's error, everything after it is never emitted, and the text on
/// the stream does not end with a closing bracket.
pub proof fn lemma_fail_fast(results: Seq<Result<FileAttrs, ErrorKind>>, i: int)
    requires
        0 <= i < results.len(),
        results[i] is Err,
        forall|j: int| 0 <= j < i ==> results[j] is Ok,
    ensures
        first_error(results) == Some(results[i]->Err_0),
        success_objects(results) == success_objects(results.take(i)),
        emitted_text(success_objects(results)).last() != ']',
{
    lemma_run_prefix(results, i);
    let tail = results.skip(i);
    assert(tail[0] == results[i]);
    assert(success_objects(results) =~= success_objects(results.take(i)));
    let objs = success_objects(results.take(i));
    lemma_success_output(results.take(i));
    if objs.len() == 0 {
        assert(emitted_text(objs) =~= seq!['[']);
    } else {
        assert(objs.last() == json_file_object(
            results.take(i)[objs.len() - 1]->Ok_0.file_name@,
            pairs_view(results.take(i)[objs.len() - 1]->Ok_0.attrs@),
        ));
        assert(objs.last().last() == '}');
        lemma_joined_last(objs);
        assert(emitted_text(objs).last() == '}');
    }
}

/// When the last member is non-empty, the joined members end with its
/// last character.
proof fn lemma_joined_last(objs: Seq<Seq<char>>)
    requires
        objs.len() > 0,
        objs.last().len() > 0,
    ensures
        joined(objs).len() > 0,
        joined(objs).last() == objs.last().last(),
{
}

} // verus!
