use financial_rag::config::AppConfig;
use financial_rag::document_processor::DocumentProcessor;
use financial_rag::document_queue::{
    complete_job, new_job, status_of, JobResults, ProcessingJob, ProcessingResult, ProcessingStatus,
};
use financial_rag::rag_pipeline::{
    build_context, build_prompt, embeddings_url, generate_url, plan_answer, request_failure,
    AnswerPlan, SourceSnippet,
};
use financial_rag::server::{
    allows_any_origin, body_limit_bytes, docs_response, is_file_field, job_status_response,
    login_response, require_file, require_text, temp_file_name, upload_file_name,
    upload_response,
};
use financial_rag::text::split_whitespace;
use financial_rag::vector_store::VectorStore;

fn job() -> ProcessingJob {
    ProcessingJob { job_id: "j1".into(), source: "a.txt".into(), text: "x".into() }
}

#[test]
fn job_results_read_back_what_was_stored() {
    let mut results = JobResults::new();
    assert!(matches!(results.check_result("j1"), ProcessingStatus::Pending));
    results.insert("j1".into(), ProcessingResult::succeeded(&job(), 4));
    results.insert("j2".into(), ProcessingResult::failed(&job(), "boom".into()));
    let r = results.get_result("j1").unwrap();
    assert!(r.success);
    assert_eq!(r.chunk_count, 4);
    assert_eq!(r.job_id, "j1");
    assert!(r.error.is_none());
    match results.check_result("j2") {
        ProcessingStatus::Failed(r) => {
            assert_eq!(r.error.as_deref(), Some("boom"));
            assert_eq!(r.chunk_count, 0);
        }
        other => panic!("unexpected status {:?}", other),
    }
    results.insert("j2".into(), ProcessingResult::succeeded(&job(), 1));
    assert!(matches!(results.check_result("j2"), ProcessingStatus::Done(_)));
    assert!(results.get_result("j3").is_none());
}

#[test]
fn status_follows_success_flag() {
    assert!(matches!(status_of(None), ProcessingStatus::Pending));
    assert!(matches!(
        status_of(Some(ProcessingResult::succeeded(&job(), 0))),
        ProcessingStatus::Done(_)
    ));
    assert!(matches!(
        status_of(Some(ProcessingResult::failed(&job(), String::new()))),
        ProcessingStatus::Failed(_)
    ));
}

fn snippet(section: &str, score: &str, text: &str) -> SourceSnippet {
    SourceSnippet { section: section.into(), score: score.into(), text: text.into() }
}

#[test]
fn context_quotes_each_passage() {
    let sources = vec![snippet("PART I", "0.660", "Risks."), snippet("Body", "0.420", "Revenue.")];
    assert_eq!(
        build_context(&sources),
        "[Source 1 - Section: PART I | Score: 0.660]\nRisks.\n\n---\n\n[Source 2 - Section: Body | Score: 0.420]\nRevenue."
    );
    assert_eq!(build_context(&Vec::new()), "");
}

#[test]
fn prompt_holds_instructions_context_and_question() {
    let prompt = build_prompt("CTX", "What?");
    assert!(prompt.starts_with("You are a financial document analyst."));
    assert!(prompt.ends_with("4. Do not make assumptions or use external knowledge.\n\nContext:\nCTX\n\nQuestion: What?\n\nAnswer:"));
}

#[test]
fn answer_plan_without_sources_is_direct() {
    match plan_answer("q", &Vec::new()) {
        AnswerPlan::Direct(a) => assert_eq!(
            a,
            "No relevant documents found. Please upload a financial report first."
        ),
        AnswerPlan::Generate(_) => panic!("expected a direct answer"),
    }
    match plan_answer("q", &vec![snippet("Body", "0.500", "t")]) {
        AnswerPlan::Generate(p) => assert_eq!(p, build_prompt(&build_context(&vec![snippet("Body", "0.500", "t")]), "q")),
        AnswerPlan::Direct(_) => panic!("expected a prompt"),
    }
}

#[test]
fn model_server_urls_and_errors() {
    assert_eq!(generate_url("http://localhost:11434"), "http://localhost:11434/api/generate");
    assert_eq!(embeddings_url("http://h"), "http://h/api/embeddings");
    assert_eq!(request_failure("LLM", "500 Internal Server Error", "oops"), "LLM request failed: 500 Internal Server Error - oops");
}

#[test]
fn server_decisions() {
    assert_eq!(body_limit_bytes(100), 104_857_600);
    assert!(allows_any_origin(&vec!["http://a".to_string(), "*".to_string()]));
    assert!(!allows_any_origin(&vec!["http://a".to_string()]));
    assert!(!allows_any_origin(&Vec::new()));
    assert!(is_file_field("file"));
    assert!(!is_file_field("files"));
    assert_eq!(upload_file_name(None), "upload.txt");
    assert_eq!(upload_file_name(Some("r.pdf")), "r.pdf");
    assert_eq!(temp_file_name("r.pdf"), "rag_r.pdf");
    assert_eq!(require_file(Some(3u8)).unwrap(), 3);
    let e = require_file::<Vec<u8>>(None).unwrap_err();
    assert_eq!((e.status, e.message.as_str()), (400, "No file uploaded"));
    assert!(require_text(" a ").is_ok());
    let e = require_text(" \n ").unwrap_err();
    assert_eq!((e.status, e.message.as_str()), (400, "No text could be extracted"));
}

#[test]
fn response_bodies() {
    let done = ProcessingJob { job_id: "id-1".into(), source: "apple_10k.txt".into(), text: "x".into() };
    let up = upload_response(ProcessingResult::succeeded(&done, 8), 44000).unwrap();
    assert!(up.success);
    assert_eq!(up.job_id, "id-1");
    assert_eq!(up.document, "apple_10k.txt");
    assert_eq!(up.chunks, 8);
    assert_eq!(up.elapsed_ms, 44000);
    let e = upload_response(ProcessingResult::failed(&done, "embedder down".into()), 5).unwrap_err();
    assert_eq!((e.status, e.message.as_str()), (500, "Processing error: embedder down"));
    let login = login_response("tok".into(), 24);
    assert_eq!((login.token.as_str(), login.expires_in_hours), ("tok", 24));
    let st = job_status_response("j".into(), ProcessingStatus::Pending);
    assert_eq!(st.status, "pending");
    assert!(st.result.is_none());
    let st = job_status_response("j".into(), ProcessingStatus::Done(ProcessingResult::succeeded(&job(), 2)));
    assert_eq!(st.status, "done");
    assert_eq!(st.result.unwrap().chunk_count, 2);
    let st = job_status_response("j".into(), ProcessingStatus::Failed(ProcessingResult::failed(&job(), "e".into())));
    assert_eq!(st.status, "failed");
}

#[test]
fn document_listing() {
    let mut store: VectorStore<u8> = VectorStore::new();
    let p = DocumentProcessor::new(1, 0);
    store.add(p.chunk_text("a b", "x.txt"), vec![1, 2]);
    store.add(p.chunk_text("c", "y.txt"), vec![3]);
    let docs = docs_response(&store);
    assert_eq!(docs.total_chunks, 3);
    assert_eq!(docs.documents.len(), 2);
    assert_eq!((docs.documents[0].name.as_str(), docs.documents[0].chunks), ("x.txt", 2));
    assert_eq!((docs.documents[1].name.as_str(), docs.documents[1].chunks), ("y.txt", 1));
}

#[test]
fn default_configuration() {
    let c = AppConfig::default();
    assert_eq!(c.server.bind_addr, "127.0.0.1:3000");
    assert_eq!(c.server.max_connections, 1000);
    assert_eq!(c.server.request_timeout_secs, 120);
    assert_eq!(c.server.max_body_size_mb, 100);
    assert_eq!(c.server.cors_origins, vec!["*".to_string()]);
    assert_eq!(c.ollama.url, "http://localhost:11434");
    assert_eq!(c.ollama.embedding_model, "nomic-embed-text");
    assert_eq!(c.ollama.llm_model, "llama3.1:8b");
    assert_eq!(c.ollama.embedding_batch_size, 10);
    assert_eq!(c.rag.chunk_size, 800);
    assert_eq!(c.rag.chunk_overlap, 150);
    assert_eq!(c.rag.top_k, 5);
    assert_eq!(c.rag.max_context_tokens, 4096);
    assert!(c.rag.system_prompt.starts_with("You are a financial document analyst."));
    assert!(!c.auth.enabled);
    assert_eq!(c.auth.jwt_secret, "change-me-in-production");
    assert_eq!(c.auth.jwt_expiry_hours, 24);
    assert_eq!(c.auth.rate_limit_per_minute, 60);
    assert_eq!(c.storage.sled_path, "./data/vectors.sled");
    assert_eq!(c.storage.vector_cache_size_mb, 256);
}

#[test]
fn completing_a_job_stores_its_chunks_or_reports_the_error() {
    let mut store: VectorStore<u8> = VectorStore::new();
    let p = DocumentProcessor::new(1, 0);
    let failed = complete_job(&mut store, &job(), p.chunk_text("a b", "a.txt"), Err("down".to_string()));
    assert!(!failed.success);
    assert_eq!(failed.error.as_deref(), Some("down"));
    assert_eq!(failed.chunk_count, 0);
    assert_eq!(store.total_chunks(), 0);
    assert!(store.doc_names().is_empty());
    let done = complete_job(&mut store, &job(), p.chunk_text("a b", "a.txt"), Ok(vec![1, 2]));
    assert!(done.success);
    assert_eq!(done.chunk_count, 2);
    assert_eq!(done.job_id, "j1");
    assert_eq!(store.total_chunks(), 2);
}

#[test]
fn new_jobs_get_distinct_random_ids() {
    let a = new_job("a.txt".into(), "text".into());
    let b = new_job("a.txt".into(), "text".into());
    assert_eq!(a.source, "a.txt");
    assert_eq!(a.text, "text");
    assert_eq!(a.job_id.len(), 36);
    assert_eq!(a.job_id.chars().nth(14), Some('4'));
    assert_eq!(a.job_id.matches('-').count(), 4);
    assert_ne!(a.job_id, b.job_id);
}

#[test]
fn upload_answers_with_document_chunk_count_and_time() {
    let p = DocumentProcessor::new(3, 1);
    let text = "Item 1A. Risk Factors: competition, supply chain, regulation and currency.";
    let job = new_job("apple_10k.txt".to_string(), text.to_string());
    let chunks = p.chunk_text(&job.text, &job.source);
    let c = chunks.len();
    assert!(c > 1);
    let vectors: Vec<u32> = (0..c as u32).collect();
    let mut store: VectorStore<u32> = VectorStore::new();
    let result = complete_job(&mut store, &job, chunks, Ok(vectors));
    let up = upload_response(result, 44000).unwrap();
    assert!(up.success);
    assert_eq!(up.document, "apple_10k.txt");
    assert_eq!(up.chunks, c);
    assert_eq!(up.elapsed_ms, 44000);
    assert_eq!(up.job_id, job.job_id);
    assert_eq!(store.total_chunks(), c);
    assert_eq!(split_whitespace(text).len(), 10);
    assert_eq!(c, 5);
}
