use po_llm::paths::{build_output_path, output_file_name, PathError};

#[test]
fn output_path_stands_beside_the_input() {
    assert_eq!(
        build_output_path("/srv/project/locale/app.pot", "fr", "{name}.{lang}.po"),
        Ok("/srv/project/locale/app.fr.po".to_string())
    );
}

#[test]
fn output_path_may_go_into_a_subdirectory() {
    assert_eq!(
        build_output_path("locale/app.pot", "pt_BR", "{lang}/LC_MESSAGES/{name}.po"),
        Ok("locale/pt_BR/LC_MESSAGES/app.po".to_string())
    );
}

#[test]
fn output_path_of_a_bare_file_name() {
    assert_eq!(build_output_path("app.pot", "de", "{name}.{lang}.po"), Ok("app.de.po".to_string()));
}

#[test]
fn stem_drops_only_the_last_extension() {
    assert_eq!(
        build_output_path("/l/app.tar.pot", "fr", "{name}-{lang}.po"),
        Ok("/l/app.tar-fr.po".to_string())
    );
}

#[test]
fn path_without_file_name_is_refused() {
    assert_eq!(build_output_path("/", "fr", "{name}.{lang}.po"), Err(PathError::InvalidFilename));
    assert_eq!(build_output_path("", "fr", "{name}.{lang}.po"), Err(PathError::InvalidFilename));
    assert_eq!(
        build_output_path("locale/..", "fr", "{name}.{lang}.po"),
        Err(PathError::InvalidFilename)
    );
}

#[test]
fn file_name_fills_both_slots() {
    assert_eq!(output_file_name("app", "fr", "{name}.{lang}.po"), "app.fr.po");
}

#[test]
fn file_name_fills_repeated_slots() {
    assert_eq!(output_file_name("app", "fr", "{lang}/{name}.{lang}.po"), "fr/app.fr.po");
}

#[test]
fn file_name_without_slots_is_the_pattern() {
    assert_eq!(output_file_name("app", "fr", "messages.po"), "messages.po");
}

#[test]
fn language_is_filled_in_before_the_name() {
    assert_eq!(output_file_name("app", "{name}", "{lang}.po"), "app.po");
    assert_eq!(output_file_name("{lang}", "fr", "{name}.po"), "{lang}.po");
}
