use lingora::integrity::Identifier;
use lingora::usage::File;

fn identifiers(content: &str) -> Vec<Identifier> {
    let file = File::from_content(content).ok().expect("valid fluent");
    file.identifiers().expect("identifiers within entries")
}

fn assert_same_identifiers(actual: &[Identifier], expected: &[Identifier]) {
    assert_eq!(actual.len(), expected.len());
    for identifier in expected {
        assert!(actual.contains(identifier), "missing {identifier:?} in {actual:?}");
    }
}

#[test]
fn basic_identifiers_will_be_persisted() {
    let identifiers = identifiers("\nmessage = A message\n-term = A term\n");
    let expected = [Identifier::new(&[], "message"), Identifier::new(&[], "-term")];
    assert_same_identifiers(&identifiers, &expected);
}

#[test]
fn attribute_identifiers_will_include_parents() {
    let content = r#"
message = A message
    .placeholder = A message placeholder
    .aria-label = A message aria label
-term = A term
    .placeholder = A term placeholder
    .aria-label = A term aria label
"#;
    let expected = [
        Identifier::new(&[], "message"),
        Identifier::new(&["message"], ".placeholder"),
        Identifier::new(&["message"], ".aria-label"),
        Identifier::new(&[], "-term"),
        Identifier::new(&["-term"], ".placeholder"),
        Identifier::new(&["-term"], ".aria-label"),
    ];
    assert_same_identifiers(&identifiers(content), &expected);
}

#[test]
fn attribute_identifiers_will_include_grandparents() {
    let content = r#"
message = A message { $name }
    .placeholder = A message placeholder { $name }
    .aria-label = A message aria label { $name }
-term = A term { $name }
    .placeholder = A term placeholder { $name }
    .aria-label = A term aria label { $name }
"#;
    let expected = [
        Identifier::new(&[], "message"),
        Identifier::new(&["message"], "$name"),
        Identifier::new(&["message"], ".placeholder"),
        Identifier::new(&["message", ".placeholder"], "$name"),
        Identifier::new(&["message"], ".aria-label"),
        Identifier::new(&["message", ".aria-label"], "$name"),
        Identifier::new(&[], "-term"),
        Identifier::new(&["-term"], "$name"),
        Identifier::new(&["-term"], ".placeholder"),
        Identifier::new(&["-term", ".placeholder"], "$name"),
        Identifier::new(&["-term"], ".aria-label"),
        Identifier::new(&["-term", ".aria-label"], "$name"),
    ];
    assert_same_identifiers(&identifiers(content), &expected);
}

#[test]
fn usages_name_the_entries_that_mention_an_identifier() {
    let file = File::from_content("greeting = Hello { -brand }\n-brand = Lingora\n").ok().expect("valid fluent");
    let usages = file.identifier_usage(&Identifier::new(&["greeting"], "-brand")).expect("usages");
    assert_eq!(usages.len(), 1);
    assert!(usages[0].contains("greeting"));
    let none = file.identifier_usage(&Identifier::new(&[], "nothing")).expect("usages");
    assert!(none.is_empty());
}

#[test]
fn invalid_fluent_is_a_fluent_error() {
    let error = File::from_content("gobbledegook !@#$%^&*()_+=-\n").err().expect("parse error");
    assert!(matches!(error, lingora::error::LingoraError::Fluent(_)));
}
