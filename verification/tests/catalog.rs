use po_llm::catalog::{catalog_entries, CatalogEntry};
use po_llm::reply::{reconcile, ResponseEntry};
use po_llm::translations::{
    catalog_header, same_text, ApplyError, GettextAdapter, Translatable, TranslationUnit,
};
use polib::catalog::Catalog;
use polib::message::{CatalogMessageMutView, Message, MessageMutView, MessageView};
use polib::metadata::CatalogMetadata;
use polib::po_file;
use std::path::Path;

fn singular_message(id: &str, translation: &str) -> Message {
    Message::build_singular()
        .with_msgid(id.to_string())
        .with_msgstr(translation.to_string())
        .done()
}

fn singular_in_context(context: &str, id: &str, translation: &str) -> Message {
    Message::build_singular()
        .with_msgctxt(context.to_string())
        .with_msgid(id.to_string())
        .with_msgstr(translation.to_string())
        .done()
}

fn plural_message(id: &str, id_plural: &str, forms: Vec<&str>) -> Message {
    Message::build_plural()
        .with_msgid(id.to_string())
        .with_msgid_plural(id_plural.to_string())
        .with_msgstr_plural(forms.into_iter().map(String::from).collect())
        .done()
}

fn catalog_of(messages: Vec<Message>) -> Catalog {
    let mut catalog = Catalog::new(CatalogMetadata::new());
    for message in messages {
        catalog.append_or_update(message);
    }
    catalog
}

fn singular_unit(id: &str, translation: &str, context: Option<&str>) -> TranslationUnit {
    TranslationUnit {
        msg_id: id.to_string(),
        msg_id_plural: None,
        msg_str: Some(translation.to_string()),
        msg_str_plural: None,
        context: context.map(String::from),
    }
}

fn plural_unit(id: &str, id_plural: &str, forms: Vec<&str>) -> TranslationUnit {
    TranslationUnit {
        msg_id: id.to_string(),
        msg_id_plural: Some(id_plural.to_string()),
        msg_str: None,
        msg_str_plural: Some(forms.into_iter().map(String::from).collect()),
        context: None,
    }
}

fn stored(catalog: &Catalog) -> Vec<(String, Option<String>, Option<String>, Vec<String>)> {
    catalog
        .messages()
        .map(|m| {
            (
                m.msgid().to_string(),
                m.msgctxt().map(String::from),
                m.msgstr().ok().map(String::from),
                m.msgstr_plural().ok().cloned().unwrap_or_default(),
            )
        })
        .collect()
}

fn template() -> Catalog {
    catalog_of(vec![
        singular_message("Hello", ""),
        plural_message("cat", "cats", vec![]),
        singular_in_context("menu", "Open", ""),
    ])
}

#[test]
fn extract_projects_every_template_entry_without_skip() {
    let units = GettextAdapter::extract_messages(template(), template(), false);
    assert_eq!(
        units,
        vec![
            singular_unit("Hello", "", None),
            plural_unit("cat", "cats", vec![]),
            singular_unit("Open", "", Some("menu")),
        ]
    );
}

#[test]
fn extract_without_skip_ignores_existing_translations() {
    let existing = catalog_of(vec![singular_message("Hello", "Bonjour")]);
    let units = GettextAdapter::extract_messages(existing, template(), false);
    assert_eq!(units.len(), 3);
    assert_eq!(units[0], singular_unit("Hello", "", None));
}

#[test]
fn extract_skips_translated_entries() {
    let existing = catalog_of(vec![
        singular_message("Hello", "Bonjour"),
        plural_message("cat", "cats", vec!["chat", ""]),
        singular_in_context("menu", "Open", ""),
    ]);
    let units = GettextAdapter::extract_messages(existing, template(), true);
    assert_eq!(
        units,
        vec![plural_unit("cat", "cats", vec![]), singular_unit("Open", "", Some("menu"))]
    );
}

#[test]
fn extract_returns_nothing_when_everything_is_translated() {
    let existing = catalog_of(vec![
        singular_in_context("menu", "Open", "Ouvrir"),
        plural_message("cat", "cats", vec!["chat", "chats"]),
        singular_message("Hello", "Bonjour"),
    ]);
    let units = GettextAdapter::extract_messages(existing, template(), true);
    assert_eq!(units, Vec::<TranslationUnit>::new());
}

#[test]
fn extract_tells_contexts_apart() {
    let existing = catalog_of(vec![singular_message("Open", "Ouvrir")]);
    let units = GettextAdapter::extract_messages(existing, template(), true);
    assert_eq!(units.len(), 3);
    assert_eq!(units[2], singular_unit("Open", "", Some("menu")));
}

#[test]
fn extract_matches_by_source_and_context_only() {
    let existing = catalog_of(vec![singular_message("cat", "chat")]);
    let units = GettextAdapter::extract_messages(existing, template(), true);
    assert_eq!(
        units,
        vec![singular_unit("Hello", "", None), singular_unit("Open", "", Some("menu"))]
    );
}

#[test]
fn extract_drops_results_that_the_template_holds() {
    let pot = catalog_of(vec![singular_message("Hello", "stale")]);
    let po = catalog_of(vec![]);
    let units = GettextAdapter::extract_messages(po, pot, true);
    assert_eq!(units, vec![singular_unit("Hello", "", None)]);
}

#[test]
fn extract_passes_over_deleted_messages() {
    let mut pot = template();
    pot.find_message_mut(None, "Hello", None).unwrap().delete();
    let units = GettextAdapter::extract_messages(catalog_of(vec![]), pot, true);
    assert_eq!(
        units,
        vec![plural_unit("cat", "cats", vec![]), singular_unit("Open", "", Some("menu"))]
    );
}

#[test]
fn extract_from_empty_template() {
    let units = GettextAdapter::extract_messages(template(), catalog_of(vec![]), true);
    assert!(units.is_empty());
}

#[test]
fn extract_pending_uses_the_loaded_catalog() {
    let loaded = catalog_of(vec![singular_message("Hello", "Bonjour")]);
    let units = GettextAdapter::extract_pending(Some(loaded), template(), true);
    assert_eq!(units.len(), 2);
    assert_eq!(units[0].msg_id, "cat");
}

#[test]
fn extract_pending_falls_back_to_the_template() {
    let pot = catalog_of(vec![singular_message("Hello", ""), singular_message("Bye", "kept")]);
    let units = GettextAdapter::extract_pending(None, pot, true);
    assert_eq!(units, vec![singular_unit("Hello", "", None)]);
}

#[test]
fn apply_creates_a_catalog_for_the_language() {
    let units = vec![singular_unit("Hello", "Bonjour", None)];
    let catalog = GettextAdapter::apply_translations(units, "fr", None).unwrap();
    assert_eq!(catalog.metadata.language, "fr");
    assert_eq!(catalog.metadata.content_type, "text/plain; charset=UTF-8");
    assert_eq!(catalog.metadata.plural_rules.nplurals, 2);
    assert_eq!(catalog.metadata.plural_rules.expr, "(n != 1)");
    assert_eq!(
        stored(&catalog),
        vec![("Hello".to_string(), None, Some("Bonjour".to_string()), vec![])]
    );
}

#[test]
fn apply_of_nothing_gives_an_empty_catalog() {
    let catalog = GettextAdapter::apply_translations(vec![], "de", None).unwrap();
    assert_eq!(catalog.count(), 0);
    assert_eq!(catalog.metadata.language, "de");
}

#[test]
fn apply_overwrites_the_entry_of_the_same_identity() {
    let existing = catalog_of(vec![
        singular_message("Hello", "Salut"),
        singular_message("Bye", "Au revoir"),
    ]);
    let units = vec![singular_unit("Hello", "Bonjour", None)];
    let catalog = GettextAdapter::apply_translations(units, "fr", Some(existing)).unwrap();
    assert_eq!(
        stored(&catalog),
        vec![
            ("Hello".to_string(), None, Some("Bonjour".to_string()), vec![]),
            ("Bye".to_string(), None, Some("Au revoir".to_string()), vec![]),
        ]
    );
}

#[test]
fn apply_appends_what_is_absent() {
    let existing = catalog_of(vec![singular_message("Hello", "Bonjour")]);
    let units = vec![
        plural_unit("cat", "cats", vec!["chat", "chats"]),
        singular_unit("Open", "Ouvrir", Some("menu")),
    ];
    let catalog = GettextAdapter::apply_translations(units, "fr", Some(existing)).unwrap();
    assert_eq!(
        stored(&catalog),
        vec![
            ("Hello".to_string(), None, Some("Bonjour".to_string()), vec![]),
            ("cat".to_string(), None, None, vec!["chat".to_string(), "chats".to_string()]),
            ("Open".to_string(), Some("menu".to_string()), Some("Ouvrir".to_string()), vec![]),
        ]
    );
}

#[test]
fn apply_keeps_the_header_of_an_existing_catalog() {
    let mut existing = catalog_of(vec![]);
    existing.metadata.language = "pt_BR".to_string();
    let units = vec![singular_unit("Hello", "Olá", None)];
    let catalog = GettextAdapter::apply_translations(units, "fr", Some(existing)).unwrap();
    assert_eq!(catalog.metadata.language, "pt_BR");
}

#[test]
fn apply_tells_contexts_apart() {
    let existing = catalog_of(vec![singular_message("Open", "Ouvert")]);
    let units = vec![singular_unit("Open", "Ouvrir", Some("menu"))];
    let catalog = GettextAdapter::apply_translations(units, "fr", Some(existing)).unwrap();
    assert_eq!(catalog.count(), 2);
    assert_eq!(catalog.find_message(None, "Open", None).unwrap().msgstr().unwrap(), "Ouvert");
    assert_eq!(
        catalog.find_message(Some("menu"), "Open", None).unwrap().msgstr().unwrap(),
        "Ouvrir"
    );
}

#[test]
fn apply_twice_is_the_same_as_once() {
    let units = || vec![
        singular_unit("Hello", "Bonjour", None),
        plural_unit("cat", "cats", vec!["chat", "chats"]),
    ];
    let once = GettextAdapter::apply_translations(units(), "fr", None).unwrap();
    let first = GettextAdapter::apply_translations(units(), "fr", None).unwrap();
    let twice = GettextAdapter::apply_translations(units(), "fr", Some(first)).unwrap();
    assert_eq!(stored(&once), stored(&twice));
}

#[test]
fn apply_adds_up_across_batches() {
    let first = GettextAdapter::apply_translations(
        vec![singular_unit("Hello", "Bonjour", None)],
        "fr",
        None,
    )
    .unwrap();
    let second = GettextAdapter::apply_translations(
        vec![singular_unit("Bye", "Au revoir", None)],
        "fr",
        Some(first),
    )
    .unwrap();
    assert_eq!(second.count(), 2);
    assert_eq!(second.find_message(None, "Hello", None).unwrap().msgstr().unwrap(), "Bonjour");
    assert_eq!(second.find_message(None, "Bye", None).unwrap().msgstr().unwrap(), "Au revoir");
}

#[test]
fn later_unit_of_the_same_identity_wins() {
    let units = vec![singular_unit("Hello", "Salut", None), singular_unit("Hello", "Bonjour", None)];
    let catalog = GettextAdapter::apply_translations(units, "fr", None).unwrap();
    assert_eq!(
        stored(&catalog),
        vec![("Hello".to_string(), None, Some("Bonjour".to_string()), vec![])]
    );
}

#[test]
fn apply_stores_missing_results_as_empty() {
    let unit = TranslationUnit {
        msg_id: "Hello".to_string(),
        msg_id_plural: None,
        msg_str: None,
        msg_str_plural: None,
        context: None,
    };
    let catalog = GettextAdapter::apply_translations(vec![unit], "fr", None).unwrap();
    assert_eq!(stored(&catalog), vec![("Hello".to_string(), None, Some(String::new()), vec![])]);
}

#[test]
fn applied_units_read_back_identical() {
    let units = vec![
        singular_unit("Hello", "Bonjour", None),
        plural_unit("cat", "cats", vec!["chat", "chats"]),
        singular_unit("Open", "Ouvrir", Some("menu")),
    ];
    let catalog = GettextAdapter::apply_translations(units.clone(), "fr", None).unwrap();
    let path = Path::new("/tmp/po_llm_applied_units_read_back_identical.po");
    po_file::write_to_file(&catalog, path).unwrap();
    let reread = po_file::parse(path).unwrap();
    assert_eq!(stored(&reread), stored(&catalog));
    let read: Vec<TranslationUnit> =
        catalog_entries(&reread).into_iter().map(|entry| entry.unit).collect();
    assert_eq!(read, units);
}

#[test]
fn reread_catalog_skips_what_was_applied() {
    let units = vec![
        singular_unit("Hello", "Bonjour", None),
        plural_unit("cat", "cats", vec!["chat", "chats"]),
    ];
    let catalog = GettextAdapter::apply_translations(units, "fr", None).unwrap();
    let pending = GettextAdapter::extract_messages(catalog, template(), true);
    assert_eq!(pending, vec![singular_unit("Open", "", Some("menu"))]);
}

#[test]
fn template_is_translated_into_french() {
    let pot = catalog_of(vec![singular_message("Hello", ""), plural_message("cat", "cats", vec![])]);
    let units = GettextAdapter::extract_pending(None, pot, false);
    assert_eq!(units.len(), 2);
    let entries = vec![
        ResponseEntry { index: 0, msg_str: Some("Bonjour".to_string()), msg_str_plural: None },
        ResponseEntry {
            index: 1,
            msg_str: None,
            msg_str_plural: Some(vec!["chat".to_string(), "chats".to_string()]),
        },
    ];
    let result = reconcile(&units, &entries);
    assert_eq!(result.translated.len(), 2);
    assert_eq!(result.failed_translated.len(), 0);
    let catalog = GettextAdapter::apply_translations(result.translated, "fr", None).unwrap();
    assert_eq!(catalog.metadata.language, "fr");
    assert_eq!(
        stored(&catalog),
        vec![
            ("Hello".to_string(), None, Some("Bonjour".to_string()), vec![]),
            ("cat".to_string(), None, None, vec!["chat".to_string(), "chats".to_string()]),
        ]
    );
}

#[test]
fn header_names_language_encoding_and_plural_rule() {
    assert_eq!(
        catalog_header("fr"),
        "Project-Id-Version: 1.0\nLast-Translator: PO-LLM\nLanguage-Team: PO-LLM\nLanguage: fr\nMIME-Version: 1.0\nContent-Type: text/plain; charset=UTF-8\nContent-Transfer-Encoding: 8bit\nPlural-Forms: nplurals=2; plural=(n != 1);\n"
    );
}

#[test]
fn apply_error_carries_the_reason() {
    let error = ApplyError::Metadata("invalid catalog metadata: x".to_string());
    assert_eq!(error, ApplyError::Metadata("invalid catalog metadata: x".to_string()));
}

#[test]
fn same_text_compares_optional_texts() {
    assert!(same_text(&None, &None));
    assert!(same_text(&Some("a".to_string()), &Some("a".to_string())));
    assert!(!same_text(&Some("a".to_string()), &Some("b".to_string())));
    assert!(!same_text(&Some(String::new()), &None));
}

#[test]
fn catalog_entry_holds_unit_and_state() {
    let entry = CatalogEntry { unit: singular_unit("Hello", "Bonjour", None), translated: true };
    assert!(entry.translated);
    assert_eq!(entry.unit.msg_id, "Hello");
}

#[test]
fn duplicate_template_entries_both_survive() {
    let mut pot = catalog_of(vec![
        singular_message("Hello", ""),
        singular_in_context("greeting", "Hello", ""),
    ]);
    pot.find_message_mut(Some("greeting"), "Hello", None).unwrap().set_msgctxt(String::new());
    let units = GettextAdapter::extract_messages(catalog_of(vec![]), pot, true);
    assert_eq!(units, vec![singular_unit("Hello", "", None), singular_unit("Hello", "", None)]);
}

#[test]
fn plural_entry_with_one_empty_form_counts_as_untranslated() {
    let existing = catalog_of(vec![plural_message("cat", "cats", vec!["", "chats"])]);
    let pot = catalog_of(vec![plural_message("cat", "cats", vec![])]);
    let units = GettextAdapter::extract_messages(existing, pot, true);
    assert_eq!(units, vec![plural_unit("cat", "cats", vec![])]);
}

#[test]
fn plural_entry_without_forms_counts_as_translated() {
    let existing = catalog_of(vec![plural_message("cat", "cats", vec![])]);
    let pot = catalog_of(vec![plural_message("cat", "cats", vec![])]);
    let units = GettextAdapter::extract_messages(existing, pot, true);
    assert!(units.is_empty());
}

#[test]
fn entries_show_what_a_reader_meets() {
    let catalog = catalog_of(vec![
        singular_in_context("menu", "Open", "Ouvrir"),
        plural_message("cat", "cats", vec!["chat", ""]),
        singular_message("Hello", ""),
    ]);
    assert_eq!(
        catalog_entries(&catalog),
        vec![
            CatalogEntry { unit: singular_unit("Open", "Ouvrir", Some("menu")), translated: true },
            CatalogEntry { unit: plural_unit("cat", "cats", vec!["chat", ""]), translated: false },
            CatalogEntry { unit: singular_unit("Hello", "", None), translated: false },
        ]
    );
    assert_eq!(catalog_entries(&catalog_of(vec![])), vec![]);
}
