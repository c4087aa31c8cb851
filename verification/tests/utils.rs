use calendar_refresh::proposed_edits::{AppliableEdit, Edit, EditRequest};
use calendar_refresh::utils::LangQueryArgs;
use std::path::Path;

#[test]
fn english_is_used_when_asked_for() {
    assert!(LangQueryArgs { lang: Some("en".to_string()) }.should_use_english());
}

#[test]
fn english_is_not_used_for_another_language() {
    assert!(!LangQueryArgs { lang: Some("de".to_string()) }.should_use_english());
    assert!(!LangQueryArgs { lang: Some("EN".to_string()) }.should_use_english());
    assert!(!LangQueryArgs { lang: Some("en ".to_string()) }.should_use_english());
    assert!(!LangQueryArgs { lang: Some("e".to_string()) }.should_use_english());
    assert!(!LangQueryArgs { lang: Some("eń".to_string()) }.should_use_english());
    assert!(!LangQueryArgs { lang: Some(String::new()) }.should_use_english());
}

#[test]
fn english_is_not_used_by_default() {
    assert!(!LangQueryArgs { lang: None }.should_use_english());
}

#[test]
fn edit_request_is_filed_under_webform() {
    let request = EditRequest {
        token: "t".to_string(),
        edits: Vec::new(),
        additional_context: String::new(),
        privacy_checked: true,
    };
    assert_eq!(request.extract_labels(), vec!["webform".to_string()]);
    assert_eq!(request.extract_subject(), "No Edits");
}

struct Renamed(String);

impl AppliableEdit for Renamed {
    fn apply(&self, key: &str, base_dir: &Path) -> String {
        format!("{} in {}: {}", key, base_dir.display(), self.0)
    }
}

fn request(keys: &[&str]) -> EditRequest {
    EditRequest {
        token: "t".to_string(),
        edits: keys.iter().map(|key| (key.to_string(), Edit {})).collect(),
        additional_context: String::new(),
        privacy_checked: true,
    }
}

fn take(_edit: Edit) -> Option<Renamed> {
    Some(Renamed("new name".to_string()))
}

fn leave(_edit: Edit) -> Option<Renamed> {
    None
}

#[test]
fn edits_for_keeps_what_the_extractor_takes() {
    let found = request(&["5502", "5510", "mi"]).edits_for(take as fn(Edit) -> Option<Renamed>);
    let keys: Vec<&str> = found.iter().map(|(key, _)| key.as_str()).collect();
    assert_eq!(keys, vec!["5502", "5510", "mi"]);
    assert_eq!(found[1].1.apply(&found[1].0, Path::new("data")), "5510 in data: new name");
}

#[test]
fn edits_for_leaves_out_what_the_extractor_does_not_take() {
    assert!(request(&["5502", "5510"]).edits_for(leave as fn(Edit) -> Option<Renamed>).is_empty());
    assert!(request(&[]).edits_for(take).is_empty());
    let mut calls = std::cell::Cell::new(0);
    let every_other = |_edit: Edit| {
        calls.set(calls.get() + 1);
        if calls.get() % 2 == 1 { Some(Renamed(calls.get().to_string())) } else { None }
    };
    let found = request(&["a", "b", "c", "d", "e"]).edits_for(every_other);
    let got: Vec<(&str, &str)> = found.iter().map(|(key, r)| (key.as_str(), r.0.as_str())).collect();
    assert_eq!(got, vec![("a", "1"), ("c", "3"), ("e", "5")]);
    assert_eq!(calls.get_mut().clone(), 5);
}
