//! A parse batch: the files of a project are parsed and stored one by one,
//! and references are resolved once, after the last file.
//!
//! A file that cannot be read or parsed is skipped and the batch goes on.
//! An error of the store ends the batch: what was stored before stays.

use std::sync::Arc;

use vstd::prelude::*;

use crate::engine::graph::{cross_referenced, cross_result, store_result, stored, GraphBuilder};
use crate::engine::parser::{is_parse_of, CodeParser, FileGraphData, FragmentView, ParseError};
use crate::languages::LanguageSupport;
use crate::storage::error::StoreError;
use crate::storage::state::StoreView;

verus! {

/// A file of a batch: its path, the identifier of its language, and its
/// text; no text where the file could not be read.
#[derive(Debug)]
pub struct BatchFile {
    pub path: String,
    pub language: String,
    pub content: Option<String>,
}

/// Mathematical value of a [`BatchFile`].
pub struct BatchFileView {
    pub path: Seq<char>,
    pub language: Seq<char>,
    pub content: Option<Seq<char>>,
}

impl View for BatchFile {
    type V = BatchFileView;

    open spec fn view(&self) -> BatchFileView {
        BatchFileView {
            path: self.path@,
            language: self.language@,
            content: self.content.deep_view(),
        }
    }
}

impl DeepView for BatchFile {
    type V = BatchFileView;

    open spec fn deep_view(&self) -> BatchFileView {
        self@
    }
}

/// How far a batch has come: the store, and the number of files stored so
/// far or the error that ended the batch.
pub struct BatchView {
    pub store: StoreView,
    pub result: Result<nat, StoreError>,
}

/// The fragment of a parse, if it gave one.
pub open spec fn fragment_in(r: Result<FileGraphData, ParseError>) -> Option<FragmentView> {
    match r {
        Ok(data) => Some(data@),
        Err(_) => None,
    }
}

/// The fragment of a file's parse, if the file was parsed and gave one.
pub open spec fn outcome_in(parse: Option<Result<FileGraphData, ParseError>>) -> Option<
    FragmentView,
> {
    match parse {
        Some(r) => fragment_in(r),
        None => None,
    }
}

/// `outcome` is what becomes of a file of the batch: the fragment that
/// parsing its text gives; none where the file has no text or parsing fails.
pub open spec fn is_outcome_of<L: LanguageSupport>(
    known: Seq<Arc<L>>,
    file: BatchFileView,
    outcome: Option<FragmentView>,
) -> bool {
    match file.content {
        Some(text) => exists|r: Result<FileGraphData, ParseError>|
            is_parse_of(known, text, file.language, r) && outcome == #[trigger] fragment_in(r),
        None => outcome is None,
    }
}

/// One file more: while the batch stands, a file with a fragment is stored
/// at the time `now`, and a store error ends the batch; a file without a
/// fragment is skipped.
pub open spec fn batch_step(
    before: BatchView,
    project_id: i64,
    file: BatchFileView,
    outcome: Option<FragmentView>,
    now: i64,
) -> BatchView {
    match (before.result, outcome) {
        (Ok(n), Some(frag)) => BatchView {
            store: stored(before.store, project_id, file.path, file.language, frag, now),
            result: match store_result(before.store, project_id, file.path, frag) {
                Ok(_) => Ok(n + 1),
                Err(e) => Err(e),
            },
        },
        _ => before,
    }
}

/// The batch after its first `count` files, the file at position `i`
/// having the outcome `outcomes[i]` and being stored at the time `times[i]`.
pub open spec fn batch_stored(
    s: StoreView,
    project_id: i64,
    files: Seq<BatchFileView>,
    outcomes: Seq<Option<FragmentView>>,
    times: Seq<i64>,
    count: nat,
) -> BatchView
    decreases count,
{
    if count == 0 {
        BatchView { store: s, result: Ok(0) }
    } else {
        batch_step(
            batch_stored(s, project_id, files, outcomes, times, (count - 1) as nat),
            project_id,
            files[count - 1],
            outcomes[count - 1],
            times[count - 1],
        )
    }
}

/// The whole batch: every file in order, and then, unless a store error
/// ended the batch, one resolution pass at the last of the times.
pub open spec fn batch_done(
    s: StoreView,
    project_id: i64,
    files: Seq<BatchFileView>,
    outcomes: Seq<Option<FragmentView>>,
    times: Seq<i64>,
) -> BatchView {
    let all = batch_stored(s, project_id, files, outcomes, times, files.len());
    match all.result {
        Ok(n) => BatchView {
            store: cross_referenced(all.store, project_id, times[files.len() as int]),
            result: match cross_result(all.store, project_id) {
                Ok(_) => Ok(n),
                Err(e) => Err(e),
            },
        },
        Err(_) => all,
    }
}

/// Each of the first `count` files that the batch comes to has the
/// outcome of its parse.
pub open spec fn outcomes_fit<L: LanguageSupport>(
    known: Seq<Arc<L>>,
    s: StoreView,
    project_id: i64,
    files: Seq<BatchFileView>,
    outcomes: Seq<Option<FragmentView>>,
    times: Seq<i64>,
    count: nat,
) -> bool {
    forall|i: nat|
        i < count && (#[trigger] batch_stored(s, project_id, files, outcomes, times, i)).result
            is Ok ==> is_outcome_of(known, files[i as int], outcomes[i as int])
}

/// `outcomes` and `times` are those of a run of the batch: one outcome for
/// each file, one time for each file and one for the resolution pass, and
/// each file that the batch comes to has the outcome of its parse.
pub open spec fn is_batch_run<L: LanguageSupport>(
    known: Seq<Arc<L>>,
    s: StoreView,
    project_id: i64,
    files: Seq<BatchFileView>,
    outcomes: Seq<Option<FragmentView>>,
    times: Seq<i64>,
) -> bool {
    &&& outcomes.len() == files.len()
    &&& times.len() == files.len() + 1
    &&& outcomes_fit(known, s, project_id, files, outcomes, times, files.len())
}

/// What a result of the batch says of it.
pub open spec fn batch_result(r: Result<usize, StoreError>) -> Result<nat, StoreError> {
    match r {
        Ok(n) => Ok(n as nat),
        Err(e) => Err(e),
    }
}

/// `after` and `r` are the store and the result of a batch on the store
/// `s`: those of a run of the batch, whatever the clock read.
pub open spec fn is_batch_of<L: LanguageSupport>(
    known: Seq<Arc<L>>,
    s: StoreView,
    project_id: i64,
    files: Seq<BatchFileView>,
    after: StoreView,
    r: Result<usize, StoreError>,
) -> bool {
    exists|outcomes: Seq<Option<FragmentView>>, times: Seq<i64>|
        #[trigger] is_batch_run(known, s, project_id, files, outcomes, times) && batch_done(
            s,
            project_id,
            files,
            outcomes,
            times,
        ) == (BatchView { store: after, result: batch_result(r) })
}

/// The batch after some files depends on the outcomes and times of those
/// files alone.
pub proof fn lemma_batch_prefix(
    s: StoreView,
    project_id: i64,
    files: Seq<BatchFileView>,
    outcomes: Seq<Option<FragmentView>>,
    times: Seq<i64>,
    others: Seq<Option<FragmentView>>,
    later: Seq<i64>,
    count: nat,
)
    requires
        count <= outcomes.len(),
        count <= times.len(),
        count <= others.len(),
        count <= later.len(),
        forall|j: int| 0 <= j < count ==> outcomes[j] == others[j] && times[j] == later[j],
    ensures
        batch_stored(s, project_id, files, outcomes, times, count) == batch_stored(
            s,
            project_id,
            files,
            others,
            later,
            count,
        ),
    decreases count,
{
    if count > 0 {
        lemma_batch_prefix(
            s,
            project_id,
            files,
            outcomes,
            times,
            others,
            later,
            (count - 1) as nat,
        );
    }
}

/// A batch that a store error has ended stays as it is, and no more than
/// the files before it are stored.
pub proof fn lemma_batch_ended(
    s: StoreView,
    project_id: i64,
    files: Seq<BatchFileView>,
    outcomes: Seq<Option<FragmentView>>,
    times: Seq<i64>,
    at: nat,
    count: nat,
)
    requires
        at <= count,
        batch_stored(s, project_id, files, outcomes, times, at).result is Err,
    ensures
        batch_stored(s, project_id, files, outcomes, times, count) == batch_stored(
            s,
            project_id,
            files,
            outcomes,
            times,
            at,
        ),
    decreases count,
{
    if count > at {
        lemma_batch_ended(s, project_id, files, outcomes, times, at, (count - 1) as nat);
    }
}

/// A file that is skipped changes nothing: neither the store nor the
/// number of files stored, and it does not end the batch.
pub proof fn lemma_batch_skips(
    s: StoreView,
    project_id: i64,
    files: Seq<BatchFileView>,
    outcomes: Seq<Option<FragmentView>>,
    times: Seq<i64>,
    at: nat,
)
    requires
        outcomes[at as int] is None,
    ensures
        batch_stored(s, project_id, files, outcomes, times, at + 1) == batch_stored(
            s,
            project_id,
            files,
            outcomes,
            times,
            at,
        ),
{
}

/// No more files are stored than the batch has come to.
pub proof fn lemma_batch_counts(
    s: StoreView,
    project_id: i64,
    files: Seq<BatchFileView>,
    outcomes: Seq<Option<FragmentView>>,
    times: Seq<i64>,
    count: nat,
)
    ensures
        batch_stored(s, project_id, files, outcomes, times, count).result matches Ok(n) ==> n
            <= count,
    decreases count,
{
    if count > 0 {
        lemma_batch_counts(s, project_id, files, outcomes, times, (count - 1) as nat);
    }
}

/// One file more in a run: the outcomes still fit, and the batch is one
/// step further.
pub proof fn lemma_batch_push<L: LanguageSupport>(
    known: Seq<Arc<L>>,
    s: StoreView,
    project_id: i64,
    files: Seq<BatchFileView>,
    outcomes: Seq<Option<FragmentView>>,
    times: Seq<i64>,
    outcome: Option<FragmentView>,
    now: i64,
)
    requires
        outcomes.len() == times.len(),
        outcomes.len() < files.len(),
        outcomes_fit(known, s, project_id, files, outcomes, times, outcomes.len()),
        is_outcome_of(known, files[outcomes.len() as int], outcome),
    ensures
        outcomes_fit(
            known,
            s,
            project_id,
            files,
            outcomes.push(outcome),
            times.push(now),
            outcomes.len() + 1,
        ),
        batch_stored(
            s,
            project_id,
            files,
            outcomes.push(outcome),
            times.push(now),
            outcomes.len() + 1,
        ) == batch_step(
            batch_stored(s, project_id, files, outcomes, times, outcomes.len()),
            project_id,
            files[outcomes.len() as int],
            outcome,
            now,
        ),
{
    let more = outcomes.push(outcome);
    let later = times.push(now);
    lemma_batch_prefix(s, project_id, files, more, later, outcomes, times, outcomes.len());
    assert(more[outcomes.len() as int] == outcome);
    assert(later[outcomes.len() as int] == now);
    assert forall|i: nat| i <= outcomes.len() implies #[trigger] batch_stored(
        s,
        project_id,
        files,
        more,
        later,
        i,
    ) == batch_stored(s, project_id, files, outcomes, times, i) by {
        lemma_batch_prefix(s, project_id, files, more, later, outcomes, times, i);
    }
    assert forall|i: nat|
        i < outcomes.len() + 1 && (#[trigger] batch_stored(
            s,
            project_id,
            files,
            more,
            later,
            i,
        )).result is Ok implies is_outcome_of(known, files[i as int], more[i as int]) by {
        if i < outcomes.len() {
            assert(batch_stored(s, project_id, files, outcomes, times, i).result is Ok);
            assert(more[i as int] == outcomes[i as int]);
        }
    }
}

/// A run that a store error has ended is a run of the whole batch: the
/// files after the error are not come to.
pub proof fn lemma_batch_cut<L: LanguageSupport>(
    known: Seq<Arc<L>>,
    s: StoreView,
    project_id: i64,
    files: Seq<BatchFileView>,
    outcomes: Seq<Option<FragmentView>>,
    times: Seq<i64>,
    after: StoreView,
    e: StoreError,
)
    requires
        outcomes.len() == times.len(),
        outcomes.len() <= files.len(),
        outcomes_fit(known, s, project_id, files, outcomes, times, outcomes.len()),
        batch_stored(s, project_id, files, outcomes, times, outcomes.len()) == (BatchView {
            store: after,
            result: Err(e),
        }),
    ensures
        is_batch_of(known, s, project_id, files, after, Err(e)),
{
    let reached = outcomes.len();
    let all = outcomes + Seq::new((files.len() - reached) as nat, |k: int| None);
    let at = times + Seq::new((files.len() + 1 - reached) as nat, |k: int| 0i64);
    assert forall|i: nat| i <= reached implies #[trigger] batch_stored(
        s,
        project_id,
        files,
        all,
        at,
        i,
    ) == batch_stored(s, project_id, files, outcomes, times, i) by {
        lemma_batch_prefix(s, project_id, files, all, at, outcomes, times, i);
    }
    assert forall|i: nat|
        i < files.len() && (#[trigger] batch_stored(s, project_id, files, all, at, i)).result
            is Ok implies is_outcome_of(known, files[i as int], all[i as int]) by {
        if i < reached {
            assert(batch_stored(s, project_id, files, outcomes, times, i).result is Ok);
            assert(all[i as int] == outcomes[i as int]);
        } else {
            lemma_batch_ended(s, project_id, files, all, at, reached, i);
        }
    }
    lemma_batch_ended(s, project_id, files, all, at, reached, files.len());
    assert(is_batch_run(known, s, project_id, files, all, at));
    assert(batch_done(s, project_id, files, all, at) == (BatchView {
        store: after,
        result: batch_result(Err(e)),
    }));
}

/// A run that has come through every file, followed by a resolution pass,
/// is a run of the whole batch.
pub proof fn lemma_batch_close<L: LanguageSupport>(
    known: Seq<Arc<L>>,
    s: StoreView,
    project_id: i64,
    files: Seq<BatchFileView>,
    outcomes: Seq<Option<FragmentView>>,
    times: Seq<i64>,
    all: StoreView,
    count: usize,
    now: i64,
)
    requires
        outcomes.len() == files.len(),
        times.len() == files.len(),
        outcomes_fit(known, s, project_id, files, outcomes, times, files.len()),
        batch_stored(s, project_id, files, outcomes, times, files.len()) == (BatchView {
            store: all,
            result: Ok(count as nat),
        }),
    ensures
        is_batch_of(
            known,
            s,
            project_id,
            files,
            cross_referenced(all, project_id, now),
            match cross_result(all, project_id) {
                Ok(_) => Ok(count),
                Err(e) => Err(e),
            },
        ),
{
    let at = times.push(now);
    assert forall|i: nat| i <= files.len() implies #[trigger] batch_stored(
        s,
        project_id,
        files,
        outcomes,
        at,
        i,
    ) == batch_stored(s, project_id, files, outcomes, times, i) by {
        lemma_batch_prefix(s, project_id, files, outcomes, at, outcomes, times, i);
    }
    assert(is_batch_run(known, s, project_id, files, outcomes, at));
    assert(batch_done(s, project_id, files, outcomes, at) == (BatchView {
        store: cross_referenced(all, project_id, now),
        result: batch_result(
            match cross_result(all, project_id) {
                Ok(_) => Ok(count),
                Err(e) => Err(e),
            },
        ),
    }));
}

/// Parses and stores the files of a batch in order, and then resolves the
/// references of the project once.
///
/// A file without text, or whose text does not parse, is skipped. The
/// first file that the store refuses ends the batch with the store's
/// error; the files before it stay stored, and no resolution pass is made.
/// The result is the number of files that were stored or found unchanged.
pub fn store_batch<L: LanguageSupport>(
    parser: &CodeParser<L>,
    builder: &mut GraphBuilder,
    project_id: i64,
    files: &Vec<BatchFile>,
) -> (r: Result<usize, StoreError>)
    ensures
        is_batch_of(
            parser@,
            old(builder)@,
            project_id,
            files.deep_view(),
            final(builder)@,
            r,
        ),
{
    let ghost s0 = builder@;
    let ghost known = parser@;
    let ghost fv = files.deep_view();
    let ghost mut outcomes: Seq<Option<FragmentView>> = Seq::empty();
    let ghost mut times: Seq<i64> = Seq::empty();
    let mut count: usize = 0;
    let mut i: usize = 0;
    while i < files.len()
        invariant
            i <= files.len(),
            count <= i,
            known == parser@,
            s0 == old(builder)@,
            fv == files.deep_view(),
            outcomes.len() == i,
            times.len() == i,
            outcomes_fit(known, s0, project_id, fv, outcomes, times, i as nat),
            batch_stored(s0, project_id, fv, outcomes, times, i as nat) == (BatchView {
                store: builder@,
                result: Ok(count as nat),
            }),
        decreases files.len() - i,
    {
        let file = &files[i];
        let ghost before = builder@;
        assert(fv[i as int] == file@);
        let parse = match &file.content {
            Some(text) => Some(parser.parse_source(text.as_str(), file.language.as_str())),
            None => None,
        };
        let ghost outcome = outcome_in(parse);
        proof {
            if parse is Some {
                assert(is_parse_of(known, file@.content->0, file@.language, parse->0));
                assert(outcome == fragment_in(parse->0));
            }
            assert(is_outcome_of(known, fv[i as int], outcome));
        }
        match parse {
            Some(Ok(data)) => {
                let ghost frag = data@;
                let stored_as = builder.store_file_graph(
                    project_id,
                    file.path.as_str(),
                    file.language.as_str(),
                    data,
                );
                proof {
                    assert(exists|now: i64|
                        builder@ == #[trigger] stored(
                            before,
                            project_id,
                            file.path@,
                            file.language@,
                            frag,
                            now,
                        ));
                    let now = choose|now: i64|
                        builder@ == stored(
                            before,
                            project_id,
                            file@.path,
                            file@.language,
                            frag,
                            now,
                        );
                    lemma_batch_push(known, s0, project_id, fv, outcomes, times, Some(frag), now);
                    outcomes = outcomes.push(Some(frag));
                    times = times.push(now);
                }
                match stored_as {
                    Ok(_) => {
                        count = count + 1;
                    },
                    Err(e) => {
                        proof {
                            lemma_batch_cut(
                                known,
                                s0,
                                project_id,
                                fv,
                                outcomes,
                                times,
                                builder@,
                                e,
                            );
                        }
                        return Err(e);
                    },
                }
            },
            _ => {
                proof {
                    lemma_batch_push(known, s0, project_id, fv, outcomes, times, None, 0);
                    outcomes = outcomes.push(None);
                    times = times.push(0);
                }
            },
        }
        i = i + 1;
    }
    let ghost all = builder@;
    let resolved = builder.build_cross_references(project_id);
    proof {
        let now = choose|now: i64| builder@ == cross_referenced(all, project_id, now);
        lemma_batch_close(known, s0, project_id, fv, outcomes, times, all, count, now);
    }
    match resolved {
        Ok(_) => Ok(count),
        Err(e) => Err(e),
    }
}

} // verus!
