//! Document-analysis requests and the analysis tools around results.
use vstd::prelude::*;

verus! {

pub struct AnalysisEngine {}

impl AnalysisEngine {
    pub fn new() -> (r: Self) {
        AnalysisEngine {}
    }
}

pub struct ExportEngine;

pub struct ComparisonAnalyzer;

#[derive(Clone, Copy, Debug, PartialEq, Eq, Structural)]
pub enum AnalysisType {
    Comprehensive,
    Academic,
    WritingQuality,
    Readability,
}

pub struct AnalysisOptions {
    pub include_grammar: bool,
    pub include_style: bool,
    pub include_structure: bool,
    pub include_content_analysis: bool,
    pub academic_level: Option<String>,
}

/// Every analysis switched on, at undergraduate level.
pub open spec fn default_options(o: AnalysisOptions) -> bool {
    &&& o.include_grammar
    &&& o.include_style
    &&& o.include_structure
    &&& o.include_content_analysis
    &&& o.academic_level.deep_view() == Some("undergraduate"@)
}

impl Default for AnalysisOptions {
    fn default() -> (r: Self)
        ensures
            default_options(r),
    {
        AnalysisOptions {
            include_grammar: true,
            include_style: true,
            include_structure: true,
            include_content_analysis: true,
            academic_level: Some(String::from_str("undergraduate")),
        }
    }
}

/// A request to the document-analysis service.
pub struct AnalysisRequest {
    pub text: String,
    pub analysis_type: AnalysisType,
    pub options: AnalysisOptions,
}

impl AnalysisRequest {
    pub fn new_academic(text: String) -> (r: Self)
        ensures
            r.text == text,
            r.analysis_type == AnalysisType::Academic,
            default_options(r.options),
    {
        AnalysisRequest { text, analysis_type: AnalysisType::Academic, options: AnalysisOptions::default() }
    }

    pub fn new_comprehensive(text: String) -> (r: Self)
        ensures
            r.text == text,
            r.analysis_type == AnalysisType::Comprehensive,
            default_options(r.options),
    {
        AnalysisRequest { text, analysis_type: AnalysisType::Comprehensive, options: AnalysisOptions::default() }
    }
}

} // verus!
