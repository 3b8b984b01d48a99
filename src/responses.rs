//! The records of the language-model service's replies and of the document
//! descriptions built from them.

use vstd::prelude::*;

verus! {

pub struct AnthropicResponse {
    pub content: Vec<Content>,
    pub id: String,
    pub model: String,
    pub role: String,
    pub stop_reason: String,
    pub stop_sequence: Option<String>,
    pub response_type: String,
    pub usage: Usage,
}

pub struct Content {
    pub text: String,
    pub content_type: String,
}

pub struct Usage {
    pub input_tokens: u32,
    pub output_tokens: u32,
}

pub struct AnthropicError {
    pub response_type: String,
    pub error: OutputError,
}

pub struct OutputError {
    pub error_type: String,
    pub message: String,
}

pub struct DocumentInfo {
    pub file_name: String,
    pub file_name_history: Vec<String>,
    pub pages_paths: Vec<String>,
    pub reasoning: Reasoning,
    pub json_file_path: String,
}

pub struct Reasoning {
    pub document_summary: DocumentSummary,
    pub document_type: DocumentType,
    pub important_date: ImportantDate,
    pub language: String,
    pub main_entities: MainEntities,
    pub type_abbreviation: TypeAbbreviation,
}

pub struct DocumentSummary {
    pub analysis: String,
    pub formatting_process: String,
    pub summary: String,
}

pub struct DocumentType {
    pub analysis: String,
    pub type_label: String,
}

pub struct ImportantDate {
    pub analysis: String,
    pub date: String,
}

pub struct MainEntities {
    pub analysis: String,
    pub entities: String,
}

pub struct TypeAbbreviation {
    pub analysis: String,
    pub type_abbr: String,
}

} // verus!
