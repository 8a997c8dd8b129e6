//! Background processing jobs for uploaded documents and their results.

use vstd::prelude::*;

use crate::document_processor::Chunk;
use crate::keyed::{
    keyed_map, keys_distinct, lemma_keyed_map, lemma_keyed_map_push, lemma_keyed_map_update,
};
use crate::text::str_equal;
use crate::vector_store::{added_source, count_of, paired, VectorStore};

verus! {

/// A document waiting to be chunked, embedded and stored.
#[derive(Clone, Debug)]
pub struct ProcessingJob {
    pub job_id: String,
    pub source: String,
    pub text: String,
}

/// What became of a job.
#[derive(Clone, Debug)]
pub struct ProcessingResult {
    pub job_id: String,
    pub success: bool,
    pub source: String,
    pub chunk_count: usize,
    pub error: Option<String>,
}

/// Where a job stands.
#[derive(Debug)]
pub enum ProcessingStatus {
    Pending,
    Done(ProcessingResult),
    Failed(ProcessingResult),
}

/// The status reported for a job whose stored result is `result`.
pub open spec fn status_for(result: Option<ProcessingResult>) -> ProcessingStatus {
    match result {
        Some(r) => if r.success {
            ProcessingStatus::Done(r)
        } else {
            ProcessingStatus::Failed(r)
        },
        None => ProcessingStatus::Pending,
    }
}

/// A lower-case hexadecimal digit.
pub open spec fn is_hex_digit(c: char) -> bool {
    ('0' <= c && c <= '9') || ('a' <= c && c <= 'f')
}

/// The hyphenated text form of a random (version 4, RFC 4122 variant) UUID:
/// 36 characters, hyphens at positions 8, 13, 18 and 23, lower-case hex
/// digits elsewhere, `4` at position 14 and one of `8`, `9`, `a`, `b` at
/// position 19.
pub open spec fn is_random_uuid_text(s: Seq<char>) -> bool {
    &&& s.len() == 36
    &&& forall|i: int|
        0 <= i < 36 ==> if i == 8 || i == 13 || i == 18 || i == 23 {
            #[trigger] s[i] == '-'
        } else {
            is_hex_digit(s[i])
        }
    &&& s[14] == '4'
    &&& (s[19] == '8' || s[19] == '9' || s[19] == 'a' || s[19] == 'b')
}

/// `uuid::Uuid::new_v4`, written out by its `Display` (hyphenated,
/// lower-case). The value is random; only its form is stated.
#[verifier::external_body]
fn random_job_id() -> (res: String)
    ensures
        is_random_uuid_text(res@),
{
    uuid::Uuid::new_v4().to_string()
}

/// A new job for the text of document `source`, with a fresh random id.
pub fn new_job(source: String, text: String) -> (res: ProcessingJob)
    ensures
        res.source == source,
        res.text == text,
        is_random_uuid_text(res.job_id@),
{
    ProcessingJob { job_id: random_job_id(), source, text }
}

/// The result of `job` failing with `error`.
pub open spec fn failed_result(job: ProcessingJob, error: String) -> ProcessingResult {
    ProcessingResult {
        job_id: job.job_id,
        success: false,
        source: job.source,
        chunk_count: 0,
        error: Some(error),
    }
}

/// The result of `job` storing `chunk_count` chunks.
pub open spec fn succeeded_result(job: ProcessingJob, chunk_count: usize) -> ProcessingResult {
    ProcessingResult {
        job_id: job.job_id,
        success: true,
        source: job.source,
        chunk_count,
        error: None,
    }
}

/// A copy of an optional string.
fn copy_option_string(s: &Option<String>) -> (res: Option<String>)
    ensures
        res == *s,
{
    match s {
        Some(t) => Some(t.clone()),
        None => None,
    }
}

impl ProcessingResult {
    /// A field-by-field copy.
    pub fn duplicate(&self) -> (res: Self)
        ensures
            res == *self,
    {
        ProcessingResult {
            job_id: self.job_id.clone(),
            success: self.success,
            source: self.source.clone(),
            chunk_count: self.chunk_count,
            error: copy_option_string(&self.error),
        }
    }

    /// The result of a job that failed with `error`: no chunks stored.
    pub fn failed(job: &ProcessingJob, error: String) -> (res: Self)
        ensures
            res == failed_result(*job, error),
    {
        ProcessingResult {
            job_id: job.job_id.clone(),
            success: false,
            source: job.source.clone(),
            chunk_count: 0,
            error: Some(error),
        }
    }

    /// The result of a job whose `chunk_count` chunks were stored.
    pub fn succeeded(job: &ProcessingJob, chunk_count: usize) -> (res: Self)
        ensures
            res == succeeded_result(*job, chunk_count),
    {
        ProcessingResult {
            job_id: job.job_id.clone(),
            success: true,
            source: job.source.clone(),
            chunk_count,
            error: None,
        }
    }
}

/// Finishes `job` once its chunks have been embedded: when embedding failed
/// with an error, the store is left as it is and the job fails with that
/// error; otherwise the chunks are added to the store with their vectors and
/// the job succeeds with the number of chunks.
pub fn complete_job<V>(
    store: &mut VectorStore<V>,
    job: &ProcessingJob,
    chunks: Vec<Chunk>,
    vectors: Result<Vec<V>, String>,
) -> (res: ProcessingResult)
    requires
        old(store).wf(),
        vectors is Ok ==> count_of(old(store).counts(), added_source(chunks@)) + chunks@.len()
            <= usize::MAX,
    ensures
        final(store).wf(),
        match vectors {
            Ok(vs) => {
                &&& final(store).entries() == old(store).entries() + paired(chunks@, vs@)
                &&& final(store).counts() == old(store).counts().insert(
                    added_source(chunks@),
                    (count_of(old(store).counts(), added_source(chunks@)) + chunks@.len()) as usize,
                )
                &&& res == succeeded_result(*job, chunks@.len() as usize)
            },
            Err(e) => {
                &&& final(store).entries() == old(store).entries()
                &&& final(store).counts() == old(store).counts()
                &&& res == failed_result(*job, e)
            },
        },
{
    match vectors {
        Ok(vs) => {
            let count = chunks.len();
            store.add(chunks, vs);
            ProcessingResult::succeeded(job, count)
        },
        Err(e) => ProcessingResult::failed(job, e),
    }
}

/// The status for a stored result: done when it succeeded, failed when it
/// did not, pending when there is none yet.
pub fn status_of(result: Option<ProcessingResult>) -> (res: ProcessingStatus)
    ensures
        res == status_for(result),
{
    match result {
        Some(r) => if r.success {
            ProcessingStatus::Done(r)
        } else {
            ProcessingStatus::Failed(r)
        },
        None => ProcessingStatus::Pending,
    }
}

/// The results of finished jobs, by job id.
pub struct JobResults {
    records: Vec<(String, ProcessingResult)>,
}

impl JobResults {
    /// The records, by job id.
    pub closed spec fn pairs(&self) -> Seq<(Seq<char>, ProcessingResult)> {
        self.records@.map_values(|r: (String, ProcessingResult)| (r.0@, r.1))
    }

    /// The stored result of each job.
    pub open spec fn results(&self) -> Map<Seq<char>, ProcessingResult> {
        keyed_map(self.pairs())
    }

    /// Well-formedness: one record per job.
    pub open spec fn wf(&self) -> bool {
        keys_distinct(self.pairs())
    }

    /// The stored result of `job_id`, if any.
    pub open spec fn result_of(&self, job_id: Seq<char>) -> Option<ProcessingResult> {
        if self.results().contains_key(job_id) {
            Some(self.results()[job_id])
        } else {
            None
        }
    }

    /// No results yet.
    pub fn new() -> (res: Self)
        ensures
            res.wf(),
            res.results() == Map::<Seq<char>, ProcessingResult>::empty(),
    {
        let res = JobResults { records: Vec::new() };
        assert(res.pairs() =~= Seq::<(Seq<char>, ProcessingResult)>::empty());
        res
    }

    /// Where `job_id` is recorded, if it is.
    fn find(&self, job_id: &str) -> (res: Option<usize>)
        requires
            self.wf(),
        ensures
            match res {
                Some(i) => i < self.pairs().len() && self.pairs()[i as int].0 == job_id@
                    && self.result_of(job_id@) == Some(self.pairs()[i as int].1),
                None => self.result_of(job_id@) is None && forall|i: int|
                    0 <= i < self.pairs().len() ==> self.pairs()[i].0 != job_id@,
            },
    {
        proof {
            lemma_keyed_map(self.pairs());
        }
        let mut i: usize = 0;
        while i < self.records.len()
            invariant
                self.wf(),
                i <= self.records@.len(),
                forall|k: int| 0 <= k < i ==> self.pairs()[k].0 != job_id@,
            decreases self.records@.len() - i,
        {
            if str_equal(self.records[i].0.as_str(), job_id) {
                proof {
                    lemma_keyed_map(self.pairs());
                }
                return Some(i);
            }
            i = i + 1;
        }
        None
    }

    /// Stores `result` for `job_id`, replacing any earlier one.
    pub fn insert(&mut self, job_id: String, result: ProcessingResult)
        requires
            old(self).wf(),
        ensures
            final(self).wf(),
            final(self).results() == old(self).results().insert(job_id@, result),
    {
        let ghost old_pairs = self.pairs();
        let ghost key = job_id@;
        match self.find(job_id.as_str()) {
            Some(i) => {
                self.records.set(i, (job_id, result));
                assert(self.pairs() =~= old_pairs.update(i as int, (old_pairs[i as int].0, result)));
                proof {
                    lemma_keyed_map_update(old_pairs, i as int, result);
                }
            },
            None => {
                self.records.push((job_id, result));
                assert(self.pairs() =~= old_pairs.push((key, result)));
                proof {
                    lemma_keyed_map_push(old_pairs, key, result);
                }
            },
        }
    }

    /// A copy of the stored result of `job_id`, if any.
    pub fn get_result(&self, job_id: &str) -> (res: Option<ProcessingResult>)
        requires
            self.wf(),
        ensures
            res == self.result_of(job_id@),
    {
        match self.find(job_id) {
            Some(i) => Some(self.records[i].1.duplicate()),
            None => None,
        }
    }

    /// Where the job `job_id` stands.
    pub fn check_result(&self, job_id: &str) -> (res: ProcessingStatus)
        requires
            self.wf(),
        ensures
            res == status_for(self.result_of(job_id@)),
    {
        status_of(self.get_result(job_id))
    }
}

/// After `insert(job_id, result)`, reading `job_id` gives `result` back and
/// reading any other job gives what it gave before.
pub proof fn law_results_read_back(
    before: JobResults,
    after: JobResults,
    job_id: Seq<char>,
    other: Seq<char>,
    result: ProcessingResult,
)
    requires
        after.results() == before.results().insert(job_id, result),
        other != job_id,
    ensures
        after.result_of(job_id) == Some(result),
        after.result_of(other) == before.result_of(other),
{
}

/// The reported status says done exactly for stored results that succeeded,
/// failed for the others, and pending when nothing is stored.
pub proof fn law_status_matches_result(result: Option<ProcessingResult>)
    ensures
        status_for(result) is Pending <==> result is None,
        status_for(result) is Done <==> (result matches Some(r) && r.success),
        status_for(result) is Failed <==> (result matches Some(r) && !r.success),
{
}

} // verus!
