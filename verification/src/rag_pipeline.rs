//! Building the question prompt from retrieved passages, and the requests
//! made to the model server.

use vstd::prelude::*;

use crate::config::DEFAULT_SYSTEM_PROMPT;
use crate::text::{decimal, format_usize, join, string_from};

verus! {

/// A retrieved passage as it is quoted to the model: its section, its
/// similarity score already rendered with three decimals, and its text.
#[derive(Clone, Debug)]
pub struct SourceSnippet {
    pub section: String,
    pub score: String,
    pub text: String,
}

/// What answering a question takes.
#[derive(Debug)]
pub enum AnswerPlan {
    /// Answer at once with this text (nothing was retrieved).
    Direct(String),
    /// Ask the language model with this prompt.
    Generate(String),
}

/// The answer given when no passage was retrieved.
pub const NO_DOCUMENTS_ANSWER: &'static str = "No relevant documents found. Please upload a financial report first.";

/// The separator between quoted passages.
pub const PASSAGE_SEPARATOR: &'static str = "\n\n---\n\n";

/// The quotation of passage number `n` (counting from 1).
pub open spec fn passage_text(n: nat, s: SourceSnippet) -> Seq<char> {
    "[Source "@ + decimal(n) + " - Section: "@ + s.section@ + " | Score: "@ + s.score@ + "]\n"@
        + s.text@
}

/// The quotations of all passages, in order.
pub open spec fn passage_texts(sources: Seq<SourceSnippet>) -> Seq<Seq<char>> {
    Seq::new(sources.len(), |i: int| passage_text((i + 1) as nat, sources[i]))
}

/// The context given to the model: the quotations separated by a rule.
pub open spec fn context_of(sources: Seq<SourceSnippet>) -> Seq<char> {
    join(passage_texts(sources), PASSAGE_SEPARATOR@)
}

/// The full prompt: the analyst instructions, the context, the question.
pub open spec fn prompt_for(context: Seq<char>, question: Seq<char>) -> Seq<char> {
    DEFAULT_SYSTEM_PROMPT@ + "\n\nContext:\n"@ + context + "\n\nQuestion: "@ + question
        + "\n\nAnswer:"@
}

/// The plan for answering `question` from `sources`.
pub open spec fn plan_for(question: Seq<char>, sources: Seq<SourceSnippet>) -> (bool, Seq<char>) {
    if sources.len() == 0 {
        (false, NO_DOCUMENTS_ANSWER@)
    } else {
        (true, prompt_for(context_of(sources), question))
    }
}

/// The quotation of passage number `n`.
pub fn passage(n: usize, s: &SourceSnippet) -> (res: String)
    ensures
        res@ == passage_text(n as nat, *s),
{
    let mut out = string_from("[Source ");
    let number = format_usize(n);
    out.append(number.as_str());
    out.append(" - Section: ");
    out.append(s.section.as_str());
    out.append(" | Score: ");
    out.append(s.score.as_str());
    out.append("]\n");
    out.append(s.text.as_str());
    out
}

/// The context for `sources`: each passage quoted with its number, section
/// and score, separated by a rule.
pub fn build_context(sources: &Vec<SourceSnippet>) -> (res: String)
    requires
        sources@.len() < usize::MAX,
    ensures
        res@ == context_of(sources@),
{
    let ghost texts = passage_texts(sources@);
    let mut out = String::new();
    let mut i: usize = 0;
    assert(texts.take(0) =~= Seq::<Seq<char>>::empty());
    while i < sources.len()
        invariant
            sources@.len() < usize::MAX,
            i <= sources@.len(),
            texts == passage_texts(sources@),
            out@ == join(texts.take(i as int), PASSAGE_SEPARATOR@),
        decreases sources@.len() - i,
    {
        assert(texts.take(i + 1).drop_last() =~= texts.take(i as int));
        assert(texts.take(i + 1).last() == passage_text((i + 1) as nat, sources@[i as int]));
        if i > 0 {
            out.append(PASSAGE_SEPARATOR);
        }
        let quoted = passage(i + 1, &sources[i]);
        out.append(quoted.as_str());
        i = i + 1;
    }
    assert(texts.take(sources@.len() as int) =~= texts);
    out
}

/// The prompt asking `question` about `context`.
pub fn build_prompt(context: &str, question: &str) -> (res: String)
    ensures
        res@ == prompt_for(context@, question@),
{
    let mut out = string_from(DEFAULT_SYSTEM_PROMPT);
    out.append("\n\nContext:\n");
    out.append(context);
    out.append("\n\nQuestion: ");
    out.append(question);
    out.append("\n\nAnswer:");
    out
}

/// How to answer `question` from the retrieved `sources`: directly with the
/// no-documents answer when there are none, else by asking the model with
/// the prompt built from them.
pub fn plan_answer(question: &str, sources: &Vec<SourceSnippet>) -> (res: AnswerPlan)
    requires
        sources@.len() < usize::MAX,
    ensures
        match res {
            AnswerPlan::Direct(a) => !plan_for(question@, sources@).0 && a@ == plan_for(
                question@,
                sources@,
            ).1,
            AnswerPlan::Generate(p) => plan_for(question@, sources@).0 && p@ == plan_for(
                question@,
                sources@,
            ).1,
        },
{
    if sources.len() == 0 {
        AnswerPlan::Direct(string_from(NO_DOCUMENTS_ANSWER))
    } else {
        let context = build_context(sources);
        AnswerPlan::Generate(build_prompt(context.as_str(), question))
    }
}

/// The model server's text generation endpoint.
pub fn generate_url(base_url: &str) -> (res: String)
    ensures
        res@ == base_url@ + "/api/generate"@,
{
    let mut out = string_from(base_url);
    out.append("/api/generate");
    out
}

/// The model server's embedding endpoint.
pub fn embeddings_url(base_url: &str) -> (res: String)
    ensures
        res@ == base_url@ + "/api/embeddings"@,
{
    let mut out = string_from(base_url);
    out.append("/api/embeddings");
    out
}

/// The error text for a refused model request: what was requested, the
/// status, and the body of the reply.
pub fn request_failure(what: &str, status: &str, body: &str) -> (res: String)
    ensures
        res@ == what@ + " request failed: "@ + status@ + " - "@ + body@,
{
    let mut out = string_from(what);
    out.append(" request failed: ");
    out.append(status);
    out.append(" - ");
    out.append(body);
    out
}

} // verus!
