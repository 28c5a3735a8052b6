use vstd::prelude::*;

use crate::knowledge::{doc_views, DocView, KnowledgeDoc};

verus! {

/// Where a locally running Ollama instance takes generation requests.
pub const OLLAMA_URL: &'static str = "http://localhost:11434/api/generate";

/// The model that writes the coaching advice.
pub const OLLAMA_MODEL: &'static str = "qwen3.5";

/// The instruction that closes every coaching prompt.
pub const COACHING_TASK: &'static str = "You are a chess coach. Based on the position analysis above, \
        provide concise, accurate coaching advice in 3-5 sentences. \
        Follow these strict rules:\n\
        1. MATERIAL and CHECKMATE come first. If the player lost material or missed a checkmate, \
           say so clearly and explain exactly why (e.g. a pin, a fork, an undefended piece).\n\
        2. Only describe a threat as dangerous if it actually wins material or forces checkmate. \
           Do NOT describe an attack on a defended piece as a threat — capturing a protected piece \
           at a material deficit is not a real threat.\n\
        3. Be precise about causes: if a recapture was impossible due to a pin, say so. \
           If a piece was undefended, say so.\n\
        4. Only after material/checkmate issues are addressed, mention strategic themes if relevant.";

/// The block of one reference document: its title in bold, then its content.
pub open spec fn doc_block(d: DocView) -> Seq<char> {
    "**"@ + d.2 + "**\n"@ + d.3 + "\n\n"@
}

/// The blocks of the documents, in order.
pub open spec fn doc_blocks(docs: Seq<DocView>) -> Seq<char>
    decreases docs.len(),
{
    if docs.len() == 0 {
        Seq::empty()
    } else {
        doc_blocks(docs.drop_last()) + doc_block(docs.last())
    }
}

/// The knowledge section of a prompt: nothing without documents, else a heading and the
/// blocks of the documents.
pub open spec fn knowledge_section(docs: Seq<DocView>) -> Seq<char> {
    if docs.len() == 0 {
        Seq::empty()
    } else {
        "=== Chess Knowledge Reference ===\n\n"@ + doc_blocks(docs)
    }
}

/// The coaching prompt: the knowledge section, the position analysis and the coaching task.
pub open spec fn coaching_prompt(findings: Seq<char>, docs: Seq<DocView>) -> Seq<char> {
    knowledge_section(docs) + "=== Position Analysis ===\n\n"@ + findings
        + "\n\n=== Coaching Task ===\n\n"@ + COACHING_TASK@
}

/// Builds the full prompt for the coaching LLM call.
/// Prepends relevant knowledge docs as context, then appends the position
/// analysis text and a coaching instruction.
pub fn build_coaching_prompt(findings_text: &str, context_docs: &[KnowledgeDoc]) -> (r: String)
    ensures
        r@ == coaching_prompt(findings_text@, doc_views(context_docs@)),
{
    let ghost dv = doc_views(context_docs@);
    let mut prompt = String::new();
    if context_docs.len() > 0 {
        prompt.append("=== Chess Knowledge Reference ===\n\n");
        let ghost head = prompt@;
        let mut i: usize = 0;
        while i < context_docs.len()
            invariant
                dv == doc_views(context_docs@),
                i <= context_docs@.len(),
                prompt@ == head + doc_blocks(dv.take(i as int)),
            decreases context_docs.len() - i,
        {
            let doc = &context_docs[i];
            assert(dv.take(i as int + 1).drop_last() =~= dv.take(i as int));
            assert(dv[i as int] == doc.deep_view());
            let ghost before = prompt@;
            prompt.append("**");
            prompt.append(doc.title.as_str());
            prompt.append("**\n");
            prompt.append(doc.content.as_str());
            prompt.append("\n\n");
            assert(prompt@ == before + doc_block(dv[i as int]));
            i = i + 1;
        }
        assert(dv.take(context_docs.len() as int) =~= dv);
    }
    assert(prompt@ == knowledge_section(dv));
    prompt.append("=== Position Analysis ===\n\n");
    prompt.append(findings_text);
    prompt.append("\n\n=== Coaching Task ===\n\n");
    prompt.append(COACHING_TASK);
    prompt
}

// ---------------------------------------------------------------------------------------
/// What reading an Ollama reply body as JSON gives: the text of its "response" field when
/// the body is JSON and the field is a string, nothing when the body is JSON without such a
/// field, or serde_json's error message when the body is not JSON.
pub uninterp spec fn json_response_field(body: Seq<char>) -> Result<Option<Seq<char>>, Seq<char>>;

/// The contents of a reply as read from JSON.
pub open spec fn reply_view(r: Result<Option<String>, String>) -> Result<Option<Seq<char>>, Seq<char>> {
    match r {
        Ok(Some(s)) => Ok(Some(s@)),
        Ok(None) => Ok(None),
        Err(e) => Err(e@),
    }
}

/// `serde_json::from_str` into a `serde_json::Value`, then the string of its "response" field
/// (`Value::get` and `Value::as_str`); a parse error is given as its `Display` text. What
/// serde_json accepts as JSON is serde_json's grammar and is only named here.
#[verifier::external_body]
fn response_field(body: &str) -> (r: Result<Option<String>, String>)
    ensures
        reply_view(r) == json_response_field(body@),
{
    match serde_json::from_str::<serde_json::Value>(body) {
        Ok(v) => Ok(v.get("response").and_then(|f| f.as_str()).map(|s| s.to_string())),
        Err(e) => Err(e.to_string()),
    }
}

/// Whether an HTTP status code means success (the 2xx codes).
pub open spec fn is_success(code: u16) -> bool {
    200 <= code <= 299
}

/// The outcome of reading a reply body whose JSON reading gave `parsed`: the response text,
/// or the error for a body that is not JSON or has no "response" text.
pub open spec fn reply_outcome(parsed: Result<Option<Seq<char>>, Seq<char>>) -> Result<Seq<char>, Seq<char>> {
    match parsed {
        Ok(Some(s)) => Ok(s),
        Ok(None) => Err("Missing 'response' field in Ollama response"@),
        Err(_) => Err("Failed to parse Ollama response: error decoding response body"@),
    }
}

/// The contents of an outcome.
pub open spec fn outcome_view(r: Result<String, String>) -> Result<Seq<char>, Seq<char>> {
    match r {
        Ok(s) => Ok(s@),
        Err(e) => Err(e@),
    }
}

/// Turns the JSON reading of an Ollama reply body into the response text or an error.
pub fn reply_text(parsed: Result<Option<String>, String>) -> (r: Result<String, String>)
    ensures
        outcome_view(r) == reply_outcome(reply_view(parsed)),
{
    match parsed {
        Ok(Some(s)) => Ok(s),
        Ok(None) => Err(String::from_str("Missing 'response' field in Ollama response")),
        Err(_) => Err(String::from_str("Failed to parse Ollama response: error decoding response body")),
    }
}

/// The error for a reply with an unsuccessful status; `status` is the status as HTTP writes
/// it ("404 Not Found").
pub fn status_error(status: &str) -> (r: String)
    ensures
        r@ == "Ollama returned status "@ + status@,
{
    let mut msg = String::from_str("Ollama returned status ");
    msg.append(status);
    msg
}

/// Reads an Ollama reply: an error for an unsuccessful status, else the "response" text of
/// the JSON body, or the error for a body that is not JSON or has no such text.
pub fn read_ollama_reply(code: u16, status: &str, body: &str) -> (r: Result<String, String>)
    ensures
        !is_success(code) ==> outcome_view(r) == Err::<Seq<char>, Seq<char>>(
            "Ollama returned status "@ + status@,
        ),
        is_success(code) ==> outcome_view(r) == reply_outcome(json_response_field(body@)),
{
    if code < 200 || code > 299 {
        return Err(status_error(status));
    }
    let parsed = response_field(body);
    reply_text(parsed)
}

} // verus!
