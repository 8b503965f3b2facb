//! Incremental emission of the result array.
//!
//! The emitter hands out chunks of text: the opening bracket, then one
//! chunk per successful file (comma-separated, no trailing comma), then
//! the closing bracket. On the first failure emission stops and the
//! bracket is never closed, so a failed run leaves a syntactically
//! incomplete array on the stream — the fail-fast framing rule.

use vstd::prelude::*;
use vstd::string::StringExecFns;

use crate::encoding::push_char;
use crate::json::file_object_json;
use crate::json::json_file_object;
use crate::model::ErrorKind;
use crate::model::FileAttrs;
use crate::model::RunOutcome;
use crate::model::pairs_view;

verus! {

/// The object texts of the longest failure-free prefix of the delivered
/// results, in delivery order.
pub open spec fn success_objects(results: Seq<Result<FileAttrs, ErrorKind>>) -> Seq<Seq<char>>
    decreases results.len(),
{
    if results.len() == 0 {
        Seq::empty()
    } else {
        match results[0] {
            Ok(fa) => seq![json_file_object(fa.file_name@, pairs_view(fa.attrs@))]
                + success_objects(results.drop_first()),
            Err(_) => Seq::empty(),
        }
    }
}

/// The first structural error among the delivered results, if any.
pub open spec fn first_error(results: Seq<Result<FileAttrs, ErrorKind>>) -> Option<ErrorKind>
    decreases results.len(),
{
    if results.len() == 0 {
        None
    } else {
        match results[0] {
            Ok(_) => first_error(results.drop_first()),
            Err(e) => Some(e),
        }
    }
}

/// The array members so far, comma-separated, no trailing comma.
pub open spec fn joined(objs: Seq<Seq<char>>) -> Seq<char>
    decreases objs.len(),
{
    if objs.len() == 0 {
        Seq::empty()
    } else if objs.len() == 1 {
        objs[0]
    } else {
        joined(objs.drop_last()) + seq![','] + objs.last()
    }
}

/// Everything the emitter has handed out once `objs` were emitted: the
/// opening bracket and the members, not yet closed.
pub open spec fn emitted_text(objs: Seq<Seq<char>>) -> Seq<char> {
    seq!['['] + joined(objs)
}

/// The finished JSON array over the given member texts.
pub open spec fn json_array(objs: Seq<Seq<char>>) -> Seq<char> {
    seq!['['] + joined(objs) + seq![']']
}

/// Writes the result array a chunk at a time. The caller prints each
/// chunk as it is handed out; the concatenation of all chunks is pinned
/// by [`emitted_text`] over the objects emitted so far.
pub struct Emitter {
    count: usize,
    objs: Ghost<Seq<Seq<char>>>,
}

impl Emitter {
    /// The member texts emitted so far.
    pub closed spec fn objects(&self) -> Seq<Seq<char>> {
        self.objs@
    }

    /// The chunk counter matches the emitted objects.
    pub closed spec fn wf(&self) -> bool {
        self.count == self.objs@.len()
    }

    /// A fresh emitter and the opening chunk.
    pub fn new() -> (r: (Emitter, String))
        ensures
            r.0.wf(),
            r.0.objects() == Seq::<Seq<char>>::empty(),
            r.1@ == emitted_text(Seq::<Seq<char>>::empty()),
    {
        let mut opening = String::new();
        push_char(&mut opening, '[');
        proof {
            assert(opening@ =~= emitted_text(Seq::<Seq<char>>::empty()));
        }
        (Emitter { count: 0, objs: Ghost(Seq::empty()) }, opening)
    }

    /// The chunk for one successful file: a separating comma when needed,
    /// then the file's JSON object.
    pub fn emit(&mut self, fa: &FileAttrs) -> (chunk: String)
        requires
            old(self).wf(),
            old(self).objects().len() < usize::MAX,
        ensures
            final(self).wf(),
            final(self).objects() == old(self).objects().push(
                json_file_object(fa.file_name@, pairs_view(fa.attrs@)),
            ),
            emitted_text(old(self).objects()) + chunk@ == emitted_text(final(self).objects()),
    {
        let ghost obj = json_file_object(fa.file_name@, pairs_view(fa.attrs@));
        let mut chunk = String::new();
        if self.count > 0 {
            push_char(&mut chunk, ',');
        }
        let text = file_object_json(fa);
        chunk.append(text.as_str());
        self.count = self.count + 1;
        proof {
            self.objs@ = self.objs@.push(obj);
            let pre = self.objs@.drop_last();
            assert(pre =~= old(self).objs@);
            if pre.len() == 0 {
                assert(chunk@ =~= obj);
                assert(joined(self.objs@) == obj);
            } else {
                assert(chunk@ =~= seq![','] + obj);
            }
            assert(emitted_text(old(self).objects()) + chunk@ =~= emitted_text(self.objects()));
        }
        chunk
    }

    /// The closing chunk: after it, the whole text is the finished array.
    pub fn finish(self) -> (chunk: String)
        ensures
            emitted_text(self.objects()) + chunk@ == json_array(self.objects()),
    {
        let mut closing = String::new();
        push_char(&mut closing, ']');
        proof {
            assert(emitted_text(self.objects()) + closing@ =~= json_array(self.objects()));
        }
        closing
    }
}

/// An error equal in content to the given one.
fn clone_error(e: &ErrorKind) -> (r: ErrorKind)
    ensures
        r@ == e@,
{
    match e {
        ErrorKind::ListNames { file, cause } => ErrorKind::ListNames {
            file: file.clone(),
            cause: cause.clone(),
        },
        ErrorKind::GetValue { file, name, cause } => ErrorKind::GetValue {
            file: file.clone(),
            name: name.clone(),
            cause: cause.clone(),
        },
        ErrorKind::NoValue { file, name } => ErrorKind::NoValue {
            file: file.clone(),
            name: name.clone(),
        },
        ErrorKind::Serialization { file, cause } => ErrorKind::Serialization {
            file: file.clone(),
            cause: cause.clone(),
        },
    }
}

/// Splitting a delivery sequence after a failure-free prefix: the members
/// so far stand, and what follows decides the rest.
pub proof fn lemma_run_prefix(results: Seq<Result<FileAttrs, ErrorKind>>, i: int)
    requires
        0 <= i <= results.len(),
        forall|j: int| 0 <= j < i ==> results[j] is Ok,
    ensures
        first_error(results) == first_error(results.skip(i)),
        success_objects(results) == success_objects(results.take(i)) + success_objects(
            results.skip(i),
        ),
        first_error(results.take(i)) is None,
        success_objects(results.take(i)).len() == i,
    decreases i,
{
    if i == 0 {
        assert(results.skip(0) =~= results);
        assert(results.take(0) =~= Seq::<Result<FileAttrs, ErrorKind>>::empty());
        assert(success_objects(results) =~= success_objects(results.take(0)) + success_objects(
            results.skip(0),
        ));
    } else {
        let rest = results.drop_first();
        assert(forall|j: int| 0 <= j < i - 1 ==> rest[j] is Ok);
        lemma_run_prefix(rest, i - 1);
        assert(results.skip(i) =~= rest.skip(i - 1));
        assert(results.take(i).drop_first() =~= rest.take(i - 1));
        assert(results.take(i)[0] == results[0]);
        assert(success_objects(results) =~= success_objects(results.take(i)) + success_objects(
            results.skip(i),
        ));
    }
}

/// Consumes the delivered per-file results in order and builds the whole
/// output text with the aggregate outcome. On a failure-free delivery the
/// text is the finished array, one member per result in delivery order;
/// otherwise emission stopped at the first error, the array is left
/// unclosed, and that error is the outcome.
pub fn emit_all(results: &Vec<Result<FileAttrs, ErrorKind>>) -> (r: (String, RunOutcome))
    ensures
        match first_error(results@) {
            None => r.1 is Success && r.0@ == json_array(success_objects(results@)),
            Some(e) => (r.1 matches RunOutcome::Failed(f) && f@ == e@) && r.0@ == emitted_text(
                success_objects(results@),
            ),
        },
{
    let (mut em, opening) = Emitter::new();
    let mut out = opening;
    let mut i: usize = 0;
    while i < results.len()
        invariant
            i <= results@.len(),
            em.wf(),
            forall|j: int| 0 <= j < i ==> results@[j] is Ok,
            em.objects() == success_objects(results@.take(i as int)),
            out@ == emitted_text(em.objects()),
        decreases results@.len() - i,
    {
        proof {
            lemma_run_prefix(results@, i as int);
        }
        match &results[i] {
            Ok(fa) => {
                let chunk = em.emit(fa);
                out.append(chunk.as_str());
                proof {
                    lemma_run_prefix(results@.take(i + 1), i as int);
                    assert(results@.take(i + 1).take(i as int) =~= results@.take(i as int));
                    let tail = results@.take(i + 1).skip(i as int);
                    assert(tail =~= seq![results@[i as int]]);
                    assert(results@[i as int] == Ok::<FileAttrs, ErrorKind>(*fa));
                    assert(tail.drop_first() =~= Seq::<Result<FileAttrs, ErrorKind>>::empty());
                    assert(success_objects(tail.drop_first()) == Seq::<Seq<char>>::empty());
                    assert(success_objects(tail) =~~= seq![
                        json_file_object(fa.file_name@, pairs_view(fa.attrs@)),
                    ]);
                    assert(success_objects(results@.take(i + 1)) =~= success_objects(
                        results@.take(i as int),
                    ).push(json_file_object(fa.file_name@, pairs_view(fa.attrs@))));
                }
            },
            Err(e) => {
                let err = clone_error(e);
                proof {
                    let tail = results@.skip(i as int);
                    assert(tail[0] == results@[i as int]);
                    assert(success_objects(results@) =~= success_objects(
                        results@.take(i as int),
                    ));
                }
                return (out, RunOutcome::Failed(err));
            },
        }
        i = i + 1;
    }
    proof {
        lemma_run_prefix(results@, results@.len() as int);
        assert(results@.take(results@.len() as int) =~= results@);
        assert(results@.skip(results@.len() as int) =~= Seq::<
            Result<FileAttrs, ErrorKind>,
        >::empty());
        assert(success_objects(results@) =~= em.objects());
    }
    let closing = em.finish();
    proof {
        assert(out@ + closing@ =~= json_array(em.objects()));
    }
    out.append(closing.as_str());
    (out, RunOutcome::Success)
}

} // verus!
