use gradecore::quality::{
    ContentMetrics, DocumentAnalysis, LinguisticFeatures, ReadingLevel, StructureAnalysis, WritingQuality,
};
use gradecore::quick::{build_prompt, extract_grade, DocumentAnalysis as QuickAnalysis, GradeRequest};

fn analysis() -> DocumentAnalysis {
    DocumentAnalysis {
        word_count: 500,
        sentence_count: 25,
        paragraph_count: 5,
        reading_level: ReadingLevel {
            flesch_kincaid: -15,
            gunning_fog: 112,
            coleman_liau: 98,
            grade_level: "College".to_string(),
            complexity_score: 65,
        },
        writing_quality: WritingQuality {
            clarity_score: 80,
            coherence_score: 70,
            grammar_score: 90,
            vocabulary_diversity: 55,
            sentence_variety: 60,
        },
        linguistic_features: LinguisticFeatures {
            average_sentence_length: 200,
            passive_voice_ratio: 125,
            transition_words_count: 14,
            academic_vocabulary_ratio: 80,
            complex_sentences_ratio: 333,
        },
        structure_analysis: StructureAnalysis {
            has_introduction: true,
            has_conclusion: false,
            paragraph_coherence: 60,
            topic_consistency: 60,
            logical_flow: 60,
        },
        content_metrics: ContentMetrics {
            originality_score: 70,
            depth_of_analysis: 50,
            evidence_usage: 50,
            critical_thinking: 50,
            argument_strength: 50,
        },
    }
}

#[test]
fn analysis_is_formatted_for_the_prompt() {
    let text = analysis().to_formatted_string();
    assert!(text.starts_with("DOCUMENT ANALYSIS SUMMARY:\n\nBasic Metrics:\n- Word Count: 500\n- Sentence Count: 25  \n- Paragraph Count: 5\n"));
    assert!(text.contains("- Flesch-Kincaid: -1.5 (Grade Level: College)\n- Gunning Fog Index: 11.2\n"));
    assert!(text.contains("- Overall Complexity: 6.5/10\n"));
    assert!(text.contains("- Passive Voice Usage: 12.5%\n- Transition Words: 14\n- Academic Vocabulary: 8.0%\n- Complex Sentences: 33.3%"));
    assert!(text.contains("- Has Introduction: Yes\n- Has Conclusion: No\n"));
    assert!(text.ends_with("- Argument Strength: 5.0/10"));
}

#[test]
fn overall_score_averages_the_sections() {
    assert_eq!(analysis().overall_score(), 63);
}

fn request() -> GradeRequest {
    GradeRequest {
        submission_content: "The essay.".to_string(),
        rubric_content: Some("R1".to_string()),
        marking_guide_content: None,
        guidelines_content: Some("G1".to_string()),
        assignment_spec_content: None,
        system_prompt: String::new(),
        user_prompt: String::new(),
        provider: "openai".to_string(),
        model: "m".to_string(),
        api_key: "k".to_string(),
        temperature: 10,
        max_tokens: None,
        workflow: None,
        document_analysis: None,
    }
}

#[test]
fn direct_prompt_joins_present_sections() {
    let p = build_prompt(&request());
    assert_eq!(
        p,
        "RUBRIC:\nR1\n\nASSIGNMENT GUIDELINES:\nG1\n\nSTUDENT SUBMISSION:\nThe essay.\n\nPlease grade this submission according to the provided rubric and give detailed feedback."
    );
}

#[test]
fn direct_prompt_with_instructions_and_metrics() {
    let mut r = request();
    r.system_prompt = "Be strict.".to_string();
    r.user_prompt = "Focus on structure.".to_string();
    r.document_analysis = Some(QuickAnalysis { word_count: 300, reading_level: 104, citations: 2, grammar_score: 875, structure_score: 900 });
    let p = build_prompt(&r);
    assert!(p.starts_with("SYSTEM INSTRUCTIONS:\nBe strict.\n\nRUBRIC:\nR1\n\n"));
    assert!(p.contains("DOCUMENT ANALYSIS:\n- Word Count: 300\n- Reading Level: 10.4\n- Citations Found: 2\n- Grammar Score: 87.5%\n- Structure Score: 90.0%\nPlease incorporate"));
    assert!(p.ends_with("GRADING INSTRUCTIONS:\nFocus on structure."));
}

#[test]
fn direct_grade_patterns() {
    assert_eq!(extract_grade("Final Grade: B-"), Some("B-".to_string()));
    assert_eq!(extract_grade("The essay earns a B grade"), Some("B".to_string()));
    assert_eq!(extract_grade("Overall: C / 100"), Some("C".to_string()));
    assert_eq!(extract_grade("no letter here"), None);
}
