use chess_coach::knowledge::{retrieve_relevant, select_relevant, KnowledgeDoc};
use chess_coach::llm::{
    build_coaching_prompt, read_ollama_reply, reply_text, status_error, COACHING_TASK,
    OLLAMA_MODEL,
};

fn doc(id: &str, tags: &[&str], title: &str, content: &str) -> KnowledgeDoc {
    KnowledgeDoc {
        id: id.to_string(),
        tags: tags.iter().map(|t| t.to_string()).collect(),
        title: title.to_string(),
        content: content.to_string(),
    }
}

fn library() -> Vec<KnowledgeDoc> {
    vec![
        doc("d1", &["fork", "knight"], "Knight forks", "Knights attack two pieces."),
        doc("d2", &["pin"], "Pins", "A pinned piece cannot move."),
        doc("d3", &["endgame"], "Endgames", "Activate the king."),
        doc("d4", &["pin", "fork"], "Double threats", "Pins and forks win material."),
    ]
}

fn ids(docs: &[KnowledgeDoc]) -> Vec<String> {
    docs.iter().map(|d| d.id.clone()).collect()
}

#[test]
fn retrieve_relevant_ranks_by_matching_tags() {
    let text = "White's Knight on c7 FORKS the king and rook; Black's knight is Pinned";
    let docs = library();
    assert_eq!(ids(&retrieve_relevant(text, &docs, 10)), vec!["d1", "d4", "d2"]);
    assert_eq!(ids(&retrieve_relevant(text, &docs, 2)), vec!["d1", "d4"]);
    assert!(retrieve_relevant(text, &docs, 0).is_empty());
}

#[test]
fn retrieve_relevant_copies_the_documents() {
    let docs = library();
    let found = retrieve_relevant("an ENDGAME with kings", &docs, 3);
    assert_eq!(found.len(), 1);
    assert_eq!(found[0].id, "d3");
    assert_eq!(found[0].tags, vec!["endgame"]);
    assert_eq!(found[0].title, "Endgames");
    assert_eq!(found[0].content, "Activate the king.");
}

#[test]
fn retrieve_relevant_without_matches() {
    let docs = library();
    assert!(retrieve_relevant("Material is equal", &docs, 5).is_empty());
    assert!(retrieve_relevant("fork", &[], 5).is_empty());
}

#[test]
fn select_relevant_is_case_sensitive_on_its_input() {
    let docs = library();
    assert!(select_relevant("FORK", &docs, 5).is_empty());
    assert_eq!(ids(&select_relevant("pin", &docs, 5)), vec!["d2", "d4"]);
}

#[test]
fn repeated_tags_count_twice() {
    let docs = vec![
        doc("once", &["pin", "skewer"], "", ""),
        doc("twice", &["pin", "pin"], "", ""),
    ];
    assert_eq!(ids(&retrieve_relevant("a pin and a skewer", &docs, 5)), vec!["once", "twice"]);
    assert_eq!(ids(&retrieve_relevant("a pin", &docs, 5)), vec!["twice", "once"]);
}

#[test]
fn prompt_without_documents() {
    let prompt = build_coaching_prompt("Material is equal", &[]);
    assert_eq!(
        prompt,
        format!(
            "=== Position Analysis ===\n\nMaterial is equal\n\n=== Coaching Task ===\n\n{}",
            COACHING_TASK
        )
    );
}

#[test]
fn prompt_with_documents() {
    let docs = vec![doc("a", &[], "T1", "C1"), doc("b", &[], "T2", "C2")];
    let prompt = build_coaching_prompt("F", &docs);
    assert!(prompt.starts_with(
        "=== Chess Knowledge Reference ===\n\n**T1**\nC1\n\n**T2**\nC2\n\n=== Position Analysis ===\n\nF\n\n=== Coaching Task ===\n\n"
    ));
    assert!(prompt.ends_with(COACHING_TASK));
}

#[test]
fn coaching_task_text() {
    assert!(COACHING_TASK.starts_with(
        "You are a chess coach. Based on the position analysis above, provide concise, accurate coaching advice in 3-5 sentences. Follow these strict rules:\n1. MATERIAL and CHECKMATE come first."
    ));
    assert!(COACHING_TASK.contains("missed a checkmate, say so clearly"));
    assert!(COACHING_TASK.contains("is not a real threat.\n3. Be precise"));
    assert!(COACHING_TASK.ends_with(
        "4. Only after material/checkmate issues are addressed, mention strategic themes if relevant."
    ));
    assert_eq!(OLLAMA_MODEL, "qwen3.5");
}

#[test]
fn ollama_reply_success() {
    assert_eq!(
        read_ollama_reply(200, "200 OK", "{\"model\":\"qwen3.5\",\"response\":\"Play Nf3.\"}"),
        Ok("Play Nf3.".to_string())
    );
}

#[test]
fn ollama_reply_bad_status() {
    assert_eq!(
        read_ollama_reply(404, "404 Not Found", "{\"response\":\"x\"}"),
        Err("Ollama returned status 404 Not Found".to_string())
    );
    assert_eq!(status_error("500 Internal Server Error"), "Ollama returned status 500 Internal Server Error");
}

#[test]
fn ollama_reply_missing_field() {
    assert_eq!(
        read_ollama_reply(200, "200 OK", "{\"model\":\"qwen3.5\"}"),
        Err("Missing 'response' field in Ollama response".to_string())
    );
    assert_eq!(
        read_ollama_reply(200, "200 OK", "{\"response\":42}"),
        Err("Missing 'response' field in Ollama response".to_string())
    );
}

#[test]
fn ollama_reply_not_json() {
    assert_eq!(
        read_ollama_reply(200, "200 OK", "not json"),
        Err("Failed to parse Ollama response: error decoding response body".to_string())
    );
}

#[test]
fn reply_text_cases() {
    assert_eq!(reply_text(Ok(Some("advice".to_string()))), Ok("advice".to_string()));
    assert_eq!(
        reply_text(Ok(None)),
        Err("Missing 'response' field in Ollama response".to_string())
    );
    assert_eq!(
        reply_text(Err("EOF while parsing".to_string())),
        Err("Failed to parse Ollama response: error decoding response body".to_string())
    );
}

#[test]
fn tags_are_compared_as_written() {
    let upper = vec![doc("P", &["Pin"], "Pins", "")];
    assert!(retrieve_relevant("Pin", &upper, 5).is_empty());
    let lower = vec![doc("p", &["pin"], "Pins", "")];
    assert_eq!(ids(&retrieve_relevant("a PINNED knight", &lower, 5)), vec!["p"]);
    let docs = vec![doc("A", &["fork"], "", ""), doc("B", &["fork", "pin"], "", "")];
    assert_eq!(ids(&retrieve_relevant("Fork and pin", &docs, 2)), vec!["B", "A"]);
}
