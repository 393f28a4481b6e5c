use po_llm::translations::TranslationUnit;

fn singular(id: &str, translation: Option<&str>, context: Option<&str>) -> TranslationUnit {
    TranslationUnit {
        msg_id: id.to_string(),
        msg_id_plural: None,
        msg_str: translation.map(String::from),
        msg_str_plural: None,
        context: context.map(String::from),
    }
}

fn plural(id: &str, id_plural: &str, forms: Option<Vec<&str>>) -> TranslationUnit {
    TranslationUnit {
        msg_id: id.to_string(),
        msg_id_plural: Some(id_plural.to_string()),
        msg_str: None,
        msg_str_plural: forms.map(|v| v.into_iter().map(String::from).collect()),
        context: None,
    }
}

#[test]
fn singular_unit_is_not_plural() {
    assert!(!singular("Hello", None, None).is_plural());
}

#[test]
fn unit_with_plural_source_is_plural() {
    assert!(plural("cat", "cats", None).is_plural());
}

#[test]
fn unit_with_empty_plural_source_is_plural() {
    assert!(plural("cat", "", None).is_plural());
}

#[test]
fn clone_keeps_every_field() {
    let unit = TranslationUnit {
        msg_id: "cat".to_string(),
        msg_id_plural: Some("cats".to_string()),
        msg_str: Some("chat".to_string()),
        msg_str_plural: Some(vec!["chat".to_string(), "chats".to_string()]),
        context: Some("pets".to_string()),
    };
    assert_eq!(unit.clone(), unit);
}

#[test]
fn display_of_translated_singular() {
    let unit = singular("Hello", Some("Bonjour"), None);
    assert_eq!(unit.display(), "Hello => Bonjour");
}

#[test]
fn display_with_context() {
    let unit = singular("Open", Some("Ouvrir"), Some("menu"));
    assert_eq!(unit.display(), "[menu] Open => Ouvrir");
}

#[test]
fn display_of_plural_shows_first_form() {
    let unit = plural("cat", "cats", Some(vec!["chat", "chats"]));
    assert_eq!(unit.display(), "cat (plural) => chat");
}

#[test]
fn display_of_plural_without_forms() {
    let unit = plural("cat", "cats", Some(vec![]));
    assert_eq!(unit.display(), "cat (plural) => ...");
}

#[test]
fn display_without_any_translation() {
    let unit = singular("Hello", None, None);
    assert_eq!(unit.display(), "Hello => No translations");
}

#[test]
fn display_prefers_singular_result() {
    let mut unit = plural("cat", "cats", Some(vec!["chat", "chats"]));
    unit.msg_str = Some("minou".to_string());
    assert_eq!(unit.display(), "cat (plural) => minou");
}

#[test]
fn display_of_empty_singular_result() {
    let unit = singular("Hello", Some(""), None);
    assert_eq!(unit.display(), "Hello => ");
}
