//! Document-quality metrics as the enhanced tier hands them to the grader.
use vstd::prelude::*;
use crate::text::{
    dec_str, decimal_string, signed_tenths_string, signed_tenths_text, tenths_string,
    tenths_text,
};

verus! {

/// Readability indexes in tenths (they may be negative); complexity in
/// tenths on a 0-10 scale.
pub struct ReadingLevel {
    pub flesch_kincaid: i32,
    pub gunning_fog: i32,
    pub coleman_liau: i32,
    pub grade_level: String,
    pub complexity_score: u32,
}

/// Scores in tenths on a 0-10 scale.
pub struct WritingQuality {
    pub clarity_score: u32,
    pub coherence_score: u32,
    pub grammar_score: u32,
    pub vocabulary_diversity: u32,
    pub sentence_variety: u32,
}

/// Average sentence length in tenths of a word; ratios in thousandths.
pub struct LinguisticFeatures {
    pub average_sentence_length: u32,
    pub passive_voice_ratio: u32,
    pub transition_words_count: u32,
    pub academic_vocabulary_ratio: u32,
    pub complex_sentences_ratio: u32,
}

/// Scores in tenths on a 0-10 scale.
pub struct StructureAnalysis {
    pub has_introduction: bool,
    pub has_conclusion: bool,
    pub paragraph_coherence: u32,
    pub topic_consistency: u32,
    pub logical_flow: u32,
}

/// Scores in tenths on a 0-10 scale.
pub struct ContentMetrics {
    pub originality_score: u32,
    pub depth_of_analysis: u32,
    pub evidence_usage: u32,
    pub critical_thinking: u32,
    pub argument_strength: u32,
}

/// The reply of the document-analysis service.
pub struct DocumentLensResponse {
    pub analysis_id: String,
    pub status: String,
    pub analysis: Option<DocumentAnalysis>,
    pub error_message: Option<String>,
    pub processing_time_ms: Option<u64>,
}

/// The analysis of a document that the enhanced tier puts in its prompt.
pub struct DocumentAnalysis {
    pub word_count: u32,
    pub sentence_count: u32,
    pub paragraph_count: u32,
    pub reading_level: ReadingLevel,
    pub writing_quality: WritingQuality,
    pub linguistic_features: LinguisticFeatures,
    pub structure_analysis: StructureAnalysis,
    pub content_metrics: ContentMetrics,
}

pub const F_HEAD: &'static str = "DOCUMENT ANALYSIS SUMMARY:\n\nBasic Metrics:\n- Word Count: ";
pub const F_SENTENCES: &'static str = "\n- Sentence Count: ";
pub const F_PARAGRAPHS: &'static str = "  \n- Paragraph Count: ";
pub const F_FK: &'static str = "\n\nReading Level:\n- Flesch-Kincaid: ";
pub const F_GRADE_LEVEL: &'static str = " (Grade Level: ";
pub const F_FOG: &'static str = ")\n- Gunning Fog Index: ";
pub const F_COLEMAN: &'static str = "\n- Coleman-Liau: ";
pub const F_COMPLEXITY: &'static str = "\n- Overall Complexity: ";
pub const F_CLARITY: &'static str = "/10\n\nWriting Quality:\n- Clarity: ";
pub const F_COHERENCE: &'static str = "/10\n- Coherence: ";
pub const F_GRAMMAR: &'static str = "/10  \n- Grammar: ";
pub const F_VOCABULARY: &'static str = "/10\n- Vocabulary Diversity: ";
pub const F_VARIETY: &'static str = "/10\n- Sentence Variety: ";
pub const F_AVG_LEN: &'static str = "/10\n\nLinguistic Features:\n- Average Sentence Length: ";
pub const F_PASSIVE: &'static str = " words\n- Passive Voice Usage: ";
pub const F_TRANSITIONS: &'static str = "%\n- Transition Words: ";
pub const F_ACADEMIC: &'static str = "\n- Academic Vocabulary: ";
pub const F_COMPLEX: &'static str = "%\n- Complex Sentences: ";
pub const F_INTRO: &'static str = "%\n\nStructure Analysis:\n- Has Introduction: ";
pub const F_CONCLUSION: &'static str = "\n- Has Conclusion: ";
pub const F_PARA_COHERENCE: &'static str = "\n- Paragraph Coherence: ";
pub const F_TOPIC: &'static str = "/10\n- Topic Consistency: ";
pub const F_FLOW: &'static str = "/10\n- Logical Flow: ";
pub const F_ORIGINALITY: &'static str = "/10\n\nContent Quality:\n- Originality: ";
pub const F_DEPTH: &'static str = "/10\n- Depth of Analysis: ";
pub const F_EVIDENCE: &'static str = "/10\n- Evidence Usage: ";
pub const F_CRITICAL: &'static str = "/10\n- Critical Thinking: ";
pub const F_ARGUMENT: &'static str = "/10\n- Argument Strength: ";
pub const F_TAIL: &'static str = "/10";

pub open spec fn yes_no(b: bool) -> Seq<char> {
    if b {
        "Yes"@
    } else {
        "No"@
    }
}

/// The analysis as prompt text.
pub open spec fn formatted(a: DocumentAnalysis) -> Seq<char> {
    F_HEAD@ + dec_str(a.word_count as nat) + F_SENTENCES@ + dec_str(a.sentence_count as nat)
        + F_PARAGRAPHS@ + dec_str(a.paragraph_count as nat) + F_FK@
        + signed_tenths_text(a.reading_level.flesch_kincaid as int) + F_GRADE_LEVEL@
        + a.reading_level.grade_level@ + F_FOG@
        + signed_tenths_text(a.reading_level.gunning_fog as int) + F_COLEMAN@
        + signed_tenths_text(a.reading_level.coleman_liau as int) + F_COMPLEXITY@
        + tenths_text(a.reading_level.complexity_score as nat) + F_CLARITY@
        + tenths_text(a.writing_quality.clarity_score as nat) + F_COHERENCE@
        + tenths_text(a.writing_quality.coherence_score as nat) + F_GRAMMAR@
        + tenths_text(a.writing_quality.grammar_score as nat) + F_VOCABULARY@
        + tenths_text(a.writing_quality.vocabulary_diversity as nat) + F_VARIETY@
        + tenths_text(a.writing_quality.sentence_variety as nat) + F_AVG_LEN@
        + tenths_text(a.linguistic_features.average_sentence_length as nat) + F_PASSIVE@
        + tenths_text(a.linguistic_features.passive_voice_ratio as nat) + F_TRANSITIONS@
        + dec_str(a.linguistic_features.transition_words_count as nat) + F_ACADEMIC@
        + tenths_text(a.linguistic_features.academic_vocabulary_ratio as nat) + F_COMPLEX@
        + tenths_text(a.linguistic_features.complex_sentences_ratio as nat) + F_INTRO@
        + yes_no(a.structure_analysis.has_introduction) + F_CONCLUSION@
        + yes_no(a.structure_analysis.has_conclusion) + F_PARA_COHERENCE@
        + tenths_text(a.structure_analysis.paragraph_coherence as nat) + F_TOPIC@
        + tenths_text(a.structure_analysis.topic_consistency as nat) + F_FLOW@
        + tenths_text(a.structure_analysis.logical_flow as nat) + F_ORIGINALITY@
        + tenths_text(a.content_metrics.originality_score as nat) + F_DEPTH@
        + tenths_text(a.content_metrics.depth_of_analysis as nat) + F_EVIDENCE@
        + tenths_text(a.content_metrics.evidence_usage as nat) + F_CRITICAL@
        + tenths_text(a.content_metrics.critical_thinking as nat) + F_ARGUMENT@
        + tenths_text(a.content_metrics.argument_strength as nat) + F_TAIL@
}

/// The mean of the writing-quality, structure and content averages, in
/// tenths, rounded down.
pub open spec fn overall(a: DocumentAnalysis) -> int {
    let q = a.writing_quality.clarity_score + a.writing_quality.coherence_score + a.writing_quality.grammar_score;
    let s = a.structure_analysis.paragraph_coherence + a.structure_analysis.topic_consistency
        + a.structure_analysis.logical_flow;
    let c = a.content_metrics.depth_of_analysis + a.content_metrics.evidence_usage + a.content_metrics.critical_thinking
        + a.content_metrics.argument_strength;
    (4 * q + 4 * s + 3 * c) / 36
}

impl DocumentAnalysis {
    /// The analysis laid out section by section for a grading prompt.
    pub fn to_formatted_string(&self) -> (r: String)
        ensures
            r@ == formatted(*self),
    {
        let mut out = String::from_str(F_HEAD);
        out.append(decimal_string(self.word_count as u64).as_str());
        out.append(F_SENTENCES);
        out.append(decimal_string(self.sentence_count as u64).as_str());
        out.append(F_PARAGRAPHS);
        out.append(decimal_string(self.paragraph_count as u64).as_str());
        out.append(F_FK);
        out.append(signed_tenths_string(self.reading_level.flesch_kincaid).as_str());
        out.append(F_GRADE_LEVEL);
        out.append(self.reading_level.grade_level.as_str());
        out.append(F_FOG);
        out.append(signed_tenths_string(self.reading_level.gunning_fog).as_str());
        out.append(F_COLEMAN);
        out.append(signed_tenths_string(self.reading_level.coleman_liau).as_str());
        out.append(F_COMPLEXITY);
        out.append(tenths_string(self.reading_level.complexity_score as u64).as_str());
        out.append(F_CLARITY);
        out.append(tenths_string(self.writing_quality.clarity_score as u64).as_str());
        out.append(F_COHERENCE);
        out.append(tenths_string(self.writing_quality.coherence_score as u64).as_str());
        out.append(F_GRAMMAR);
        out.append(tenths_string(self.writing_quality.grammar_score as u64).as_str());
        out.append(F_VOCABULARY);
        out.append(tenths_string(self.writing_quality.vocabulary_diversity as u64).as_str());
        out.append(F_VARIETY);
        out.append(tenths_string(self.writing_quality.sentence_variety as u64).as_str());
        out.append(F_AVG_LEN);
        out.append(tenths_string(self.linguistic_features.average_sentence_length as u64).as_str());
        out.append(F_PASSIVE);
        out.append(tenths_string(self.linguistic_features.passive_voice_ratio as u64).as_str());
        out.append(F_TRANSITIONS);
        out.append(decimal_string(self.linguistic_features.transition_words_count as u64).as_str());
        out.append(F_ACADEMIC);
        out.append(tenths_string(self.linguistic_features.academic_vocabulary_ratio as u64).as_str());
        out.append(F_COMPLEX);
        out.append(tenths_string(self.linguistic_features.complex_sentences_ratio as u64).as_str());
        out.append(F_INTRO);
        out.append(if self.structure_analysis.has_introduction { "Yes" } else { "No" });
        out.append(F_CONCLUSION);
        out.append(if self.structure_analysis.has_conclusion { "Yes" } else { "No" });
        out.append(F_PARA_COHERENCE);
        out.append(tenths_string(self.structure_analysis.paragraph_coherence as u64).as_str());
        out.append(F_TOPIC);
        out.append(tenths_string(self.structure_analysis.topic_consistency as u64).as_str());
        out.append(F_FLOW);
        out.append(tenths_string(self.structure_analysis.logical_flow as u64).as_str());
        out.append(F_ORIGINALITY);
        out.append(tenths_string(self.content_metrics.originality_score as u64).as_str());
        out.append(F_DEPTH);
        out.append(tenths_string(self.content_metrics.depth_of_analysis as u64).as_str());
        out.append(F_EVIDENCE);
        out.append(tenths_string(self.content_metrics.evidence_usage as u64).as_str());
        out.append(F_CRITICAL);
        out.append(tenths_string(self.content_metrics.critical_thinking as u64).as_str());
        out.append(F_ARGUMENT);
        out.append(tenths_string(self.content_metrics.argument_strength as u64).as_str());
        out.append(F_TAIL);
        assert(out@ =~= formatted(*self));
        out
    }

    /// Mean of the writing-quality, structure and content averages, in
    /// tenths.
    pub fn overall_score(&self) -> (r: u64)
        ensures
            r == overall(*self),
    {
        let q = self.writing_quality.clarity_score as u64 + self.writing_quality.coherence_score as u64
            + self.writing_quality.grammar_score as u64;
        let s = self.structure_analysis.paragraph_coherence as u64 + self.structure_analysis.topic_consistency as u64
            + self.structure_analysis.logical_flow as u64;
        let c = self.content_metrics.depth_of_analysis as u64 + self.content_metrics.evidence_usage as u64
            + self.content_metrics.critical_thinking as u64 + self.content_metrics.argument_strength as u64;
        (4 * q + 4 * s + 3 * c) / 36
    }
}

} // verus!
