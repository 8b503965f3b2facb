//! Per-file collection: turn the attribute store's outcomes for one file
//! into a complete encoded result or the first structural error.
//!
//! Structural failures (the names could not be listed, a value could not
//! be read, a listed value is missing) abort the file's collection.
//! Representational failures (a value the active policy cannot render)
//! are tolerated: the attribute is omitted from the result map.

use vstd::prelude::*;

use crate::encoding::EncodingPolicy;
use crate::encoding::encode_value;
use crate::encoding::spec_encode;
use crate::model::AttrEntry;
use crate::model::AttrPair;
use crate::model::ErrorKind;
use crate::model::ErrorView;
use crate::model::EntryView;
use crate::model::FetchOutcome;
use crate::model::FetchView;
use crate::model::FileAttrs;
use crate::model::ListOutcome;
use crate::model::ListView;
use crate::model::distinct_keys;
use crate::model::pairs_view;

verus! {

/// `pairs` with `name` bound to `text`: the existing binding is replaced
/// in place, or a new one is appended at the end.
pub open spec fn upsert(
    pairs: Seq<(Seq<char>, Seq<char>)>,
    name: Seq<char>,
    text: Seq<char>,
) -> Seq<(Seq<char>, Seq<char>)>
    decreases pairs.len(),
{
    if pairs.len() == 0 {
        seq![(name, text)]
    } else if pairs[0].0 == name {
        seq![(name, text)] + pairs.drop_first()
    } else {
        seq![pairs[0]] + upsert(pairs.drop_first(), name, text)
    }
}

/// What collection returns for the listed entries of one file, in listing
/// order: the encoded pairs, or the first structural error.
pub open spec fn spec_collect_entries(
    file: Seq<char>,
    entries: Seq<EntryView>,
    policy: EncodingPolicy,
) -> Result<Seq<(Seq<char>, Seq<char>)>, ErrorView>
    decreases entries.len(),
{
    if entries.len() == 0 {
        Ok(Seq::empty())
    } else {
        match spec_collect_entries(file, entries.drop_last(), policy) {
            Err(e) => Err(e),
            Ok(acc) => {
                let entry = entries.last();
                match entry.fetched {
                    FetchView::Failed(cause) => Err(
                        ErrorView::GetValue { file, name: entry.name, cause },
                    ),
                    FetchView::Missing => Err(ErrorView::NoValue { file, name: entry.name }),
                    FetchView::Value(v) => match spec_encode(v, policy) {
                        Some(text) => Ok(upsert(acc, entry.name, text)),
                        None => Ok(acc),
                    },
                }
            },
        }
    }
}

/// What [`collect_file`] returns: the file's encoded attribute pairs, or
/// the first structural error in listing order. A failed listing is fatal
/// before any entry is looked at.
pub open spec fn spec_collect(
    file: Seq<char>,
    listing: ListView,
    policy: EncodingPolicy,
) -> Result<Seq<(Seq<char>, Seq<char>)>, ErrorView> {
    match listing {
        ListView::Failed(cause) => Err(ErrorView::ListNames { file, cause }),
        ListView::Names(entries) => spec_collect_entries(file, entries, policy),
    }
}

/// When `name` is bound at position `i` and nowhere earlier, the upsert
/// replaces that binding in place.
proof fn lemma_upsert_found(
    pairs: Seq<(Seq<char>, Seq<char>)>,
    name: Seq<char>,
    text: Seq<char>,
    i: int,
)
    requires
        0 <= i < pairs.len(),
        pairs[i].0 == name,
        forall|j: int| 0 <= j < i ==> pairs[j].0 != name,
    ensures
        upsert(pairs, name, text) == pairs.update(i, (name, text)),
    decreases pairs.len(),
{
    if i == 0 {
        assert(upsert(pairs, name, text) =~= pairs.update(0, (name, text)));
    } else {
        lemma_upsert_found(pairs.drop_first(), name, text, i - 1);
        assert(upsert(pairs, name, text) =~= pairs.update(i, (name, text)));
    }
}

/// When `name` is bound nowhere, the upsert appends a new binding.
proof fn lemma_upsert_absent(pairs: Seq<(Seq<char>, Seq<char>)>, name: Seq<char>, text: Seq<char>)
    requires
        forall|j: int| 0 <= j < pairs.len() ==> pairs[j].0 != name,
    ensures
        upsert(pairs, name, text) == pairs.push((name, text)),
    decreases pairs.len(),
{
    if pairs.len() == 0 {
        assert(upsert(pairs, name, text) =~= pairs.push((name, text)));
    } else {
        lemma_upsert_absent(pairs.drop_first(), name, text);
        assert(upsert(pairs, name, text) =~= pairs.push((name, text)));
    }
}

/// Collects one file's result from what the attribute store handed back.
/// Returns the encoded attribute mapping, or the first structural error;
/// an unrepresentable value only drops that attribute from the mapping.
pub fn collect_file(file_name: &String, listing: &ListOutcome, policy: EncodingPolicy) -> (r:
    Result<FileAttrs, ErrorKind>)
    ensures
        match r {
            Ok(fa) => fa.file_name@ == file_name@ && spec_collect(file_name@, listing@, policy)
                == Ok::<_, ErrorView>(pairs_view(fa.attrs@)),
            Err(e) => spec_collect(file_name@, listing@, policy) == Err::<
                Seq<(Seq<char>, Seq<char>)>,
                _,
            >(e@),
        },
{
    match listing {
        ListOutcome::Failed(cause) => Err(
            ErrorKind::ListNames { file: file_name.clone(), cause: cause.clone() },
        ),
        ListOutcome::Names(entries) => {
            let ghost eviews = entries@.map_values(|e: AttrEntry| e@);
            let mut attrs: Vec<AttrPair> = Vec::new();
            let mut i: usize = 0;
            proof {
                assert(eviews.take(0) =~= Seq::<EntryView>::empty());
                assert(pairs_view(attrs@) =~= Seq::<(Seq<char>, Seq<char>)>::empty());
            }
            while i < entries.len()
                invariant
                    i <= entries@.len(),
                    listing@ == ListView::Names(eviews),
                    eviews == entries@.map_values(|e: AttrEntry| e@),
                    eviews.len() == entries@.len(),
                    spec_collect_entries(file_name@, eviews.take(i as int), policy) == Ok::<
                        _,
                        ErrorView,
                    >(pairs_view(attrs@)),
                decreases entries@.len() - i,
            {
                let ghost pre = eviews.take(i as int);
                proof {
                    assert(eviews.take(i + 1).drop_last() =~= pre);
                    assert(eviews.take(i + 1).last() == eviews[i as int]);
                    assert(eviews[i as int] == entries@[i as int]@);
                }
                let entry = &entries[i];
                match &entry.fetched {
                    FetchOutcome::Failed(cause) => {
                        let e = ErrorKind::GetValue {
                            file: file_name.clone(),
                            name: entry.name.clone(),
                            cause: cause.clone(),
                        };
                        proof {
                            assert(eviews[i as int].fetched == FetchView::Failed(cause@));
                            lemma_collect_entries_error(file_name@, eviews, policy, i as int);
                            assert(listing@ == ListView::Names(eviews));
                            assert(e@ == ErrorView::GetValue {
                                file: file_name@,
                                name: eviews[i as int].name,
                                cause: cause@,
                            });
                        }
                        return Err(e);
                    },
                    FetchOutcome::Missing => {
                        let e = ErrorKind::NoValue {
                            file: file_name.clone(),
                            name: entry.name.clone(),
                        };
                        proof {
                            assert(eviews[i as int].fetched == FetchView::Missing);
                            lemma_collect_entries_error(file_name@, eviews, policy, i as int);
                            assert(listing@ == ListView::Names(eviews));
                            assert(e@ == ErrorView::NoValue {
                                file: file_name@,
                                name: eviews[i as int].name,
                            });
                        }
                        return Err(e);
                    },
                    FetchOutcome::Value(v) => {
                        match encode_value(v, policy) {
                            Some(text) => {
                                upsert_pair(&mut attrs, &entry.name, text);
                            },
                            None => {},
                        }
                    },
                }
                i = i + 1;
            }
            proof {
                assert(eviews.take(eviews.len() as int) =~= eviews);
            }
            Ok(FileAttrs { file_name: file_name.clone(), attrs })
        },
    }
}

/// A structural failure at position `i`, after sound entries, is the
/// result for every extension of the listing that reaches it.
proof fn lemma_collect_entries_error(
    file: Seq<char>,
    entries: Seq<EntryView>,
    policy: EncodingPolicy,
    i: int,
)
    requires
        0 <= i < entries.len(),
        spec_collect_entries(file, entries.take(i), policy) is Ok,
        !(entries[i].fetched is Value),
    ensures
        spec_collect_entries(file, entries, policy) == spec_collect_entries(
            file,
            entries.take(i + 1),
            policy,
        ),
        spec_collect_entries(file, entries.take(i + 1), policy) == (match entries[i].fetched {
            FetchView::Failed(cause) => Err::<Seq<(Seq<char>, Seq<char>)>, _>(
                ErrorView::GetValue { file, name: entries[i].name, cause },
            ),
            FetchView::Missing => Err(ErrorView::NoValue { file, name: entries[i].name }),
            FetchView::Value(_) => arbitrary(),
        }),
    decreases entries.len(),
{
    assert(entries.take(i + 1).drop_last() =~= entries.take(i));
    assert(entries.take(i + 1).last() == entries[i]);
    if entries.len() > i + 1 {
        assert(entries.drop_last().take(i + 1) =~= entries.take(i + 1));
        assert(entries.drop_last().take(i) =~= entries.take(i));
        assert(entries.drop_last()[i] == entries[i]);
        lemma_collect_entries_error(file, entries.drop_last(), policy, i);
    }
}

/// Binds `name` to `text` in the vector: replaces the existing pair in
/// place, or appends a new one.
fn upsert_pair(attrs: &mut Vec<AttrPair>, name: &String, text: String)
    ensures
        pairs_view(final(attrs)@) == upsert(pairs_view(old(attrs)@), name@, text@),
{
    let ghost pairs = pairs_view(attrs@);
    let mut i: usize = 0;
    while i < attrs.len()
        invariant
            i <= attrs@.len(),
            pairs == pairs_view(attrs@),
            pairs.len() == attrs@.len(),
            attrs == old(attrs),
            forall|j: int| 0 <= j < i ==> pairs[j].0 != name@,
        decreases attrs@.len() - i,
    {
        if attrs[i].name == *name {
            proof {
                lemma_upsert_found(pairs, name@, text@, i as int);
            }
            attrs.set(i, AttrPair { name: name.clone(), value: text });
            proof {
                assert(pairs_view(attrs@) =~= pairs.update(i as int, (name@, text@)));
            }
            return ;
        }
        i = i + 1;
    }
    proof {
        lemma_upsert_absent(pairs, name@, text@);
    }
    attrs.push(AttrPair { name: name.clone(), value: text });
    proof {
        assert(pairs_view(attrs@) =~= pairs.push((name@, text@)));
    }
}

} // verus!
