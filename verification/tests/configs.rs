use po_llm::configs::{default_system_prompt, AppConfig, LlmConfig, ProjectConfig, TranslationConfig};

#[test]
fn default_prompt_has_the_three_slots() {
    let prompt = default_system_prompt();
    assert_eq!(prompt.matches("{target_lang}").count(), 2);
    assert_eq!(prompt.matches("{project_context}").count(), 1);
    assert_eq!(prompt.matches("{custom_prompt}").count(), 1);
}

#[test]
fn default_prompt_begins_and_ends_as_expected() {
    let prompt = default_system_prompt();
    assert!(prompt.starts_with("Role: Professional I18n Translator ({target_lang})\nProject Context: {project_context}\n\nTask:\n"));
    assert!(prompt.ends_with("Output: Return a JSON array of objects with keys: \"index\", \"msg_str\", \"msg_str_plural\"."));
    assert_eq!(prompt.lines().count(), 17);
}

#[test]
fn settings_hold_plain_values() {
    let config = AppConfig {
        llm: LlmConfig {
            api_base: "http://localhost:1234/v1".to_string(),
            api_key: "none".to_string(),
            model: "small".to_string(),
            custom_prompt: None,
            system_prompt: default_system_prompt(),
        },
        translation: TranslationConfig {
            target_languages: vec!["fr".to_string(), "de".to_string()],
            input_pattern: "**/*.pot".to_string(),
            output_pattern: "{name}.{lang}.po".to_string(),
            batch_size: 20,
        },
        project: ProjectConfig {
            context: "A text editor".to_string(),
            base_path: ".".to_string(),
            skip_translated: true,
        },
    };
    assert_eq!(config.translation.target_languages.len(), 2);
    assert_eq!(config.translation.batch_size, 20);
    assert!(config.project.skip_translated);
    assert_eq!(config.llm.system_prompt, default_system_prompt());
}
