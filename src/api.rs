//! Request and response records exchanged with the application shell.
use vstd::prelude::*;

verus! {

/// The envelope of every command reply.
pub struct ApiResponse<T> {
    pub success: bool,
    pub data: Option<T>,
    pub error: Option<String>,
}

impl<T> ApiResponse<T> {
    pub fn success(data: T) -> (r: Self)
        ensures
            r.success,
            r.data == Some(data),
            r.error.is_none(),
    {
        ApiResponse { success: true, data: Some(data), error: None }
    }

    pub fn error(message: String) -> (r: Self)
        ensures
            !r.success,
            r.data.is_none(),
            r.error == Some(message),
    {
        ApiResponse { success: false, data: None, error: Some(message) }
    }
}

pub struct CreateProjectRequest {
    pub name: String,
    pub description: Option<String>,
    pub tiers_enabled: Vec<String>,
    pub repetitions: u32,
    pub document_lens_url: Option<String>,
}

pub struct SimpleProjectResponse {
    pub id: String,
    pub name: String,
    pub description: Option<String>,
}

pub struct CreateProviderRequest {
    pub name: String,
    pub provider_type: String,
    pub model: String,
}

pub struct SimpleProviderResponse {
    pub id: String,
    pub name: String,
    pub provider_type: String,
}

pub struct TestLLMRequest {
    pub provider_id: String,
    pub api_key: String,
    pub prompt: String,
}

pub struct TestLLMResponse {
    pub success: bool,
    pub response: Option<String>,
    pub tokens_used: Option<u32>,
    pub model: String,
}

pub struct TestGradingRequest {
    pub provider_id: String,
    pub api_key: String,
    pub submission_text: String,
    pub rubric: String,
}

pub struct MultipleRunsRequest {
    pub provider_id: String,
    pub api_key: String,
    pub submission_text: String,
    pub rubric: String,
    pub num_runs: u32,
}

pub struct ImportDocumentsRequest {
    pub project_id: String,
    pub file_paths: Vec<String>,
}

/// `imported_at` is an RFC 3339 timestamp.
pub struct SubmissionResponse {
    pub id: String,
    pub original_filename: String,
    pub file_type: String,
    pub word_count: u32,
    pub status: String,
    pub imported_at: String,
}

pub struct ExportResultsRequest {
    pub project_id: String,
    pub format: String,
    pub include_raw_responses: bool,
}

pub struct DocumentLensAnalysisRequest {
    pub text: String,
    pub analysis_type: String,
}

pub struct StartGradingRequest {
    pub project_id: String,
    pub submission_ids: Vec<String>,
    pub provider_ids: Vec<String>,
    pub tiers: Vec<String>,
    pub repetitions: u32,
    pub rubric: Option<String>,
}

pub struct GradingStatus {
    pub project_id: String,
    pub total_tasks: u32,
    pub completed_tasks: u32,
    pub status: String,
    pub current_task: Option<String>,
    pub errors: Vec<String>,
}

/// A file found while browsing a folder; `modified` is an RFC 3339
/// timestamp.
pub struct FileInfo {
    pub name: String,
    pub path: String,
    pub size: u64,
    pub modified: Option<String>,
    pub is_docx: bool,
}

/// The reply of a text-generation provider.
pub struct LLMResponse {
    pub content: String,
    pub tokens_used: Option<u32>,
    pub model: String,
}

/// The provider kinds that configuration may name.
pub struct ProviderFactory;

pub open spec fn supported_providers() -> Seq<Seq<char>> {
    seq!["openai"@, "anthropic"@, "google"@, "ollama"@, "custom"@]
}

impl ProviderFactory {
    pub fn get_supported_providers() -> (r: Vec<&'static str>)
        ensures
            r@.map_values(|p: &str| p@) == supported_providers(),
    {
        let r: Vec<&'static str> = vec!["openai", "anthropic", "google", "ollama", "custom"];
        assert(r@.map_values(|p: &str| p@) =~= supported_providers());
        r
    }
}

} // verus!
