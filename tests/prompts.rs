use gradecore::analysis::{AnalysisEngine, AnalysisOptions, AnalysisRequest, AnalysisType};
use gradecore::api::{ApiResponse, FileInfo, ProviderFactory};
use gradecore::documents::{count_words, is_docx_extension, is_listed_extension, read_document, sort_files_by_name, DocumentType};
use gradecore::engine::{GradingTier, Submission};
use gradecore::tiers::TierProcessor;

fn submission(text: Option<&str>, words: u32) -> Submission {
    Submission {
        id: "s".to_string(),
        project_id: "p".to_string(),
        original_filename: "f.txt".to_string(),
        file_hash: "h".to_string(),
        file_type: "txt".to_string(),
        word_count: words,
        status: "processed".to_string(),
        extracted_text: text.map(|t| t.to_string()),
        imported_at: 0,
    }
}

#[test]
fn basic_prompt_holds_rubric_and_text() {
    let sub = submission(Some("My essay text."), 3);
    let (user, system) = TierProcessor::prepare_prompt(&GradingTier::Basic, &sub, "R1: 10 pts", None, None);
    assert!(user.starts_with("Please grade the following submission using the provided rubric:\n\nRUBRIC:\nR1: 10 pts\n\nSUBMISSION:\nMy essay text.\n\nPlease provide:"));
    assert!(system.unwrap().starts_with("You are an expert academic grader."));
}

#[test]
fn missing_text_uses_placeholder() {
    let sub = submission(None, 0);
    let (user, _) = TierProcessor::prepare_prompt(&GradingTier::Basic, &sub, "R", None, None);
    assert!(user.contains("SUBMISSION:\nNo text extracted\n"));
}

#[test]
fn assignment_aware_prompt_places_specification_first() {
    let sub = submission(Some("Essay."), 1);
    let (user, _) = TierProcessor::prepare_prompt(&GradingTier::AssignmentAware, &sub, "R", Some("Write 500 words"), None);
    assert!(user.contains("ASSIGNMENT SPECIFICATION:\nWrite 500 words\n\nRUBRIC:\nR\n"));
    let (none, _) = TierProcessor::prepare_prompt(&GradingTier::AssignmentAware, &sub, "R", None, None);
    assert!(none.contains("ASSIGNMENT SPECIFICATION:\nNo assignment specification provided\n"));
}

#[test]
fn enhanced_prompt_uses_analysis_or_fallback() {
    let sub = submission(Some("One. Two! Three?\n\nNext part.\n\n  \n\nLast"), 7);
    let (with, _) = TierProcessor::prepare_prompt(&GradingTier::Enhanced, &sub, "R", None, Some("METRICS"));
    assert!(with.contains("DETAILED TEXT ANALYSIS:\nMETRICS\n\nSUBMISSION:\n"));
    let (without, _) = TierProcessor::prepare_prompt(&GradingTier::Enhanced, &sub, "R", None, None);
    assert!(without.contains("BASIC TEXT ANALYSIS (DocumentLens unavailable)"));
    let fallback = TierProcessor::fallback_analysis_text(&sub);
    assert!(fallback.contains("- Word Count: 7\n"));
    assert!(fallback.contains("- Estimated Sentence Count: 4  \n"));
    assert!(fallback.contains("- Estimated Paragraph Count: 3\n"));
    assert!(fallback.contains("- Average Sentence Length: 1.8 words"));
}

#[test]
fn fallback_without_sentences() {
    let sub = submission(Some("no marks here"), 3);
    let fallback = TierProcessor::fallback_analysis_text(&sub);
    assert!(fallback.contains("- Average Sentence Length: 0.0 words"));
}

#[test]
fn words_are_counted() {
    assert_eq!(count_words(""), 0);
    assert_eq!(count_words("  one two\tthree\nfour  "), 4);
}

#[test]
fn document_placeholder() {
    let d = read_document("/tmp/essay.docx").unwrap();
    assert_eq!(d.path, "/tmp/essay.docx");
    assert_eq!(d.content, "Document content placeholder");
    assert_eq!(d.file_type, DocumentType::Word);
}

#[test]
fn api_envelope() {
    let ok = ApiResponse::success(5u32);
    assert!(ok.success);
    assert_eq!(ok.data, Some(5));
    assert!(ok.error.is_none());
    let err: ApiResponse<u32> = ApiResponse::error("bad".to_string());
    assert!(!err.success);
    assert_eq!(err.error, Some("bad".to_string()));
}

#[test]
fn providers_listed() {
    assert_eq!(ProviderFactory::get_supported_providers(), vec!["openai", "anthropic", "google", "ollama", "custom"]);
}

#[test]
fn analysis_requests() {
    let r = AnalysisRequest::new_academic("t".to_string());
    assert_eq!(r.analysis_type, AnalysisType::Academic);
    assert!(r.options.include_grammar);
    assert_eq!(r.options.academic_level, Some("undergraduate".to_string()));
    let c = AnalysisRequest::new_comprehensive("t".to_string());
    assert_eq!(c.analysis_type, AnalysisType::Comprehensive);
    let d = AnalysisOptions::default();
    assert!(d.include_structure && d.include_style && d.include_content_analysis);
    let _ = AnalysisEngine::new();
}

fn file(name: &str) -> FileInfo {
    FileInfo { name: name.to_string(), path: format!("/d/{}", name), size: 1, modified: None, is_docx: false }
}

#[test]
fn listed_extensions() {
    assert!(is_listed_extension("docx"));
    assert!(is_listed_extension("PDF"));
    assert!(is_listed_extension("Txt"));
    assert!(is_listed_extension("doc"));
    assert!(!is_listed_extension("md"));
    assert!(!is_listed_extension("docxx"));
    assert!(is_docx_extension("DocX"));
    assert!(!is_docx_extension("doc"));
}

#[test]
fn files_sorted_by_name() {
    let sorted = sort_files_by_name(vec![file("b.txt"), file("B.pdf"), file("a.docx"), file("ab.doc"), file("a")]);
    let names: Vec<String> = sorted.iter().map(|f| f.name.clone()).collect();
    assert_eq!(names, vec!["B.pdf", "a", "a.docx", "ab.doc", "b.txt"]);
}
