//! Request and response bodies of the HTTP interface, and the decisions its
//! handlers make.

use vstd::prelude::*;

use crate::config::ANY_ORIGIN;
use crate::document_queue::{ProcessingResult, ProcessingStatus};
use crate::text::{is_blank, str_equal, string_from, trim};
use crate::vector_store::VectorStore;

verus! {

/// A question, optionally limited to one document.
#[derive(Clone, Debug)]
pub struct QuestionRequest {
    pub question: String,
    pub source_filter: Option<String>,
    pub stream: Option<bool>,
}

/// The indexed documents and the total number of chunks.
#[derive(Clone, Debug)]
pub struct DocsResponse {
    pub documents: Vec<DocInfo>,
    pub total_chunks: usize,
}

/// A document and its number of chunks.
#[derive(Clone, Debug)]
pub struct DocInfo {
    pub name: String,
    pub chunks: usize,
}

/// The answer to an upload: the document, how many chunks it was split
/// into and stored, and how long the handling took in milliseconds.
#[derive(Clone, Debug)]
pub struct UploadResponse {
    pub success: bool,
    pub job_id: String,
    pub document: String,
    pub chunks: usize,
    pub elapsed_ms: u64,
}

/// A request for a token.
#[derive(Clone, Debug)]
pub struct LoginRequest {
    pub username: String,
    pub password: Option<String>,
}

/// An issued token and how long it lasts.
#[derive(Clone, Debug)]
pub struct LoginResponse {
    pub token: String,
    pub expires_in_hours: i64,
}

/// Where a processing job stands.
#[derive(Clone, Debug)]
pub struct JobStatusResponse {
    pub job_id: String,
    pub status: String,
    pub result: Option<ProcessingResult>,
}

/// An HTTP error: status code and message.
#[derive(Clone, Debug)]
pub struct HttpError {
    pub status: u16,
    pub message: String,
}

/// The start of the message when an uploaded document could not be
/// processed; the job's error follows it.
pub const PROCESSING_FAILED_PREFIX: &'static str = "Processing error: ";

/// The file name used when the upload names none.
pub const DEFAULT_UPLOAD_NAME: &'static str = "upload.txt";

/// The multipart field that carries the file.
pub const FILE_FIELD: &'static str = "file";

/// The message when no file field was sent.
pub const NO_FILE_MESSAGE: &'static str = "No file uploaded";

/// The message when the document held no text.
pub const NO_TEXT_MESSAGE: &'static str = "No text could be extracted";

/// The status name of a job.
pub open spec fn status_name(status: ProcessingStatus) -> Seq<char> {
    match status {
        ProcessingStatus::Pending => "pending"@,
        ProcessingStatus::Done(_) => "done"@,
        ProcessingStatus::Failed(_) => "failed"@,
    }
}

/// The request body limit: `mb` mebibytes, in bytes.
pub fn body_limit_bytes(mb: usize) -> (res: usize)
    requires
        mb * 1048576 <= usize::MAX,
    ensures
        res == mb * 1048576,
{
    mb * 1024 * 1024
}

/// Whether the allowed origins include the wildcard `*`.
pub fn allows_any_origin(origins: &Vec<String>) -> (res: bool)
    ensures
        res == exists|i: int| 0 <= i < origins@.len() && (#[trigger] origins@[i])@ == ANY_ORIGIN@,
{
    let mut i: usize = 0;
    while i < origins.len()
        invariant
            i <= origins@.len(),
            forall|k: int| 0 <= k < i ==> (#[trigger] origins@[k])@ != ANY_ORIGIN@,
        decreases origins@.len() - i,
    {
        if str_equal(origins[i].as_str(), ANY_ORIGIN) {
            return true;
        }
        i = i + 1;
    }
    false
}

/// Whether a multipart field is the file field.
pub fn is_file_field(name: &str) -> (res: bool)
    ensures
        res == (name@ == FILE_FIELD@),
{
    str_equal(name, FILE_FIELD)
}

/// The name of an uploaded file: the one the upload gives, else the default.
pub fn upload_file_name(given: Option<&str>) -> (res: String)
    ensures
        given matches Some(g) ==> res@ == g@,
        given is None ==> res@ == DEFAULT_UPLOAD_NAME@,
{
    match given {
        Some(g) => string_from(g),
        None => string_from(DEFAULT_UPLOAD_NAME),
    }
}

/// The name of the temporary file an upload is written to: `rag_` and the
/// file name.
pub fn temp_file_name(file_name: &str) -> (res: String)
    ensures
        res@ == "rag_"@ + file_name@,
{
    let mut out = string_from("rag_");
    out.append(file_name);
    out
}

/// An upload is refused with 400 when it carried no file.
pub fn require_file<T>(data: Option<T>) -> (res: Result<T, HttpError>)
    ensures
        data matches Some(d) ==> res == Ok::<T, HttpError>(d),
        data is None ==> (res matches Err(e) && e.status == 400 && e.message@ == NO_FILE_MESSAGE@),
{
    match data {
        Some(d) => Ok(d),
        None => Err(HttpError { status: 400, message: string_from(NO_FILE_MESSAGE) }),
    }
}

/// Extracted text is refused with 400 when it is blank.
pub fn require_text(text: &str) -> (res: Result<(), HttpError>)
    ensures
        trim(text@).len() == 0 ==> (res matches Err(e) && e.status == 400 && e.message@
            == NO_TEXT_MESSAGE@),
        trim(text@).len() != 0 ==> res is Ok,
{
    if is_blank(text) {
        Err(HttpError { status: 400, message: string_from(NO_TEXT_MESSAGE) })
    } else {
        Ok(())
    }
}

/// The text of a job's error, empty when it has none.
pub open spec fn error_text(error: Option<String>) -> Seq<char> {
    match error {
        Some(e) => e@,
        None => Seq::empty(),
    }
}

/// The answer to an upload once its job has run, `elapsed_ms` after the
/// request came in: when the job succeeded, the document's name and its
/// number of chunks; when it failed, a 500 carrying the job's error.
pub fn upload_response(result: ProcessingResult, elapsed_ms: u64) -> (res: Result<
    UploadResponse,
    HttpError,
>)
    ensures
        result.success ==> (res matches Ok(r) && r.success && r.job_id == result.job_id
            && r.document == result.source && r.chunks == result.chunk_count && r.elapsed_ms
            == elapsed_ms),
        !result.success ==> (res matches Err(e) && e.status == 500 && e.message@
            == PROCESSING_FAILED_PREFIX@ + error_text(result.error)),
{
    if result.success {
        Ok(
            UploadResponse {
                success: true,
                job_id: result.job_id,
                document: result.source,
                chunks: result.chunk_count,
                elapsed_ms,
            },
        )
    } else {
        let mut message = string_from(PROCESSING_FAILED_PREFIX);
        match &result.error {
            Some(e) => message.append(e.as_str()),
            None => {},
        }
        proof {
            assert(message@ == PROCESSING_FAILED_PREFIX@ + error_text(result.error));
        }
        Err(HttpError { status: 500, message })
    }
}

/// The answer to a token request.
pub fn login_response(token: String, expires_in_hours: i64) -> (res: LoginResponse)
    ensures
        res.token == token,
        res.expires_in_hours == expires_in_hours,
{
    LoginResponse { token, expires_in_hours }
}

/// The report on job `job_id`: its status name and, once finished, its
/// result.
pub fn job_status_response(job_id: String, status: ProcessingStatus) -> (res: JobStatusResponse)
    ensures
        res.job_id == job_id,
        res.status@ == status_name(status),
        res.result == match status {
            ProcessingStatus::Pending => None,
            ProcessingStatus::Done(r) => Some(r),
            ProcessingStatus::Failed(r) => Some(r),
        },
{
    match status {
        ProcessingStatus::Pending => JobStatusResponse {
            job_id,
            status: string_from("pending"),
            result: None,
        },
        ProcessingStatus::Done(r) => JobStatusResponse {
            job_id,
            status: string_from("done"),
            result: Some(r),
        },
        ProcessingStatus::Failed(r) => JobStatusResponse {
            job_id,
            status: string_from("failed"),
            result: Some(r),
        },
    }
}

/// The list of indexed documents with their chunk counts, and the total
/// number of chunks.
pub fn docs_response<V>(store: &VectorStore<V>) -> (res: DocsResponse)
    ensures
        res.total_chunks == store.entries().len(),
        res.documents@.len() == store.documents().len(),
        forall|i: int|
            0 <= i < res.documents@.len() ==> (#[trigger] res.documents@[i]).name@
                == store.documents()[i].0 && res.documents@[i].chunks == store.documents()[i].1,
{
    let info = store.doc_info();
    let mut documents: Vec<DocInfo> = Vec::new();
    let mut i: usize = 0;
    while i < info.len()
        invariant
            info@.len() == store.documents().len(),
            forall|k: int|
                0 <= k < info@.len() ==> (#[trigger] info@[k]).0@ == store.documents()[k].0
                    && info@[k].1 == store.documents()[k].1,
            i <= info@.len(),
            documents@.len() == i,
            forall|k: int|
                0 <= k < i ==> (#[trigger] documents@[k]).name@ == store.documents()[k].0
                    && documents@[k].chunks == store.documents()[k].1,
        decreases info@.len() - i,
    {
        documents.push(DocInfo { name: info[i].0.clone(), chunks: info[i].1 });
        i = i + 1;
    }
    DocsResponse { documents, total_chunks: store.total_chunks() }
}

} // verus!
