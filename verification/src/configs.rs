//! The settings of a run, as plain values.

use vstd::prelude::*;

verus! {

/// All settings of a run.
#[derive(Debug)]
pub struct AppConfig {
    pub llm: LlmConfig,
    pub translation: TranslationConfig,
    pub project: ProjectConfig,
}

/// How to reach the backend and what to tell it.
#[derive(Debug)]
pub struct LlmConfig {
    pub api_base: String,
    pub api_key: String,
    pub model: String,
    pub custom_prompt: Option<String>,
    pub system_prompt: String,
}

/// Which files to translate, into which languages and in what batches.
#[derive(Debug)]
pub struct TranslationConfig {
    pub target_languages: Vec<String>,
    pub input_pattern: String,
    pub output_pattern: String,
    pub batch_size: usize,
}

/// What the project is about and where it lives.
#[derive(Debug)]
pub struct ProjectConfig {
    pub context: String,
    pub base_path: String,
    pub skip_translated: bool,
}

/// The system message template that is used where the settings give none.
/// Its slots are `{target_lang}`, `{project_context}` and `{custom_prompt}`.
pub const DEFAULT_SYSTEM_PROMPT: &'static str = r#"Role: Professional I18n Translator ({target_lang})
Project Context: {project_context}

Task:
Translate the provided list of texts into {target_lang}.

Strict Requirements:
1. INDEX PRESERVATION: You will be provided with texts marked with "Index: n". Your JSON response MUST include the original "index" for each translation.
2. NO ID REPETITION: Do not include the original source text in your JSON response, only the "index" and the translated strings.
3. MULTILINE HANDLING: Translate multiline text preserving the paragraph structure but returning it as a standard JSON string.
4. STRUCTURE:
   - "msg_str": The main translation.
   - "msg_str_plural": An array of strings for plural forms. Set to null if the source has no plural.

{custom_prompt}

Output: Return a JSON array of objects with keys: "index", "msg_str", "msg_str_plural"."#;

/// The system message template that is used where the settings give none.
pub fn default_system_prompt() -> (out: String)
    ensures
        out@ == DEFAULT_SYSTEM_PROMPT@,
{
    DEFAULT_SYSTEM_PROMPT.to_owned()
}

} // verus!
