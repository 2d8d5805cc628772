use tldw::prompt::{PromptCatalog, UnknownPromptError, DETAILED_PROMPT, OUTLINE_PROMPT, PARTIAL_PROMPT};

#[test]
fn builtin_catalog_has_three_templates() {
    let c = PromptCatalog::builtin();
    assert_eq!(c.len(), 3);
    assert_eq!(c.template(0), Ok(OUTLINE_PROMPT.to_string()));
    assert_eq!(c.template(1), Ok(DETAILED_PROMPT.to_string()));
    assert_eq!(c.template(2), Ok(PARTIAL_PROMPT.to_string()));
    assert!(OUTLINE_PROMPT.starts_with("Provide an in-depth, summary"));
    assert!(OUTLINE_PROMPT.ends_with("markdown markup\n"));
    assert!(PARTIAL_PROMPT.ends_with("Don't use enumerations."));
}

#[test]
fn unknown_selector_is_an_error() {
    let c = PromptCatalog::builtin();
    assert_eq!(c.template(3), Err(UnknownPromptError { selector: 3, available: 3 }));
}

#[test]
fn custom_catalog_is_indexed_in_order() {
    let c = PromptCatalog::new(vec!["first".to_string(), "second".to_string()]);
    assert_eq!(c.template(1), Ok("second".to_string()));
    assert_eq!(c.template(2), Err(UnknownPromptError { selector: 2, available: 2 }));
    let empty = PromptCatalog::new(Vec::new());
    assert_eq!(empty.template(0), Err(UnknownPromptError { selector: 0, available: 0 }));
}
