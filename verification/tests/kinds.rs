use uml_classifier::kind::ClassifierKind;
use uml_classifier::render::Render;

#[test]
fn each_kind_has_its_keyword() {
    assert_eq!(ClassifierKind::Class.kind(), "class");
    assert_eq!(ClassifierKind::DataType.kind(), "dataType");
    assert_eq!(ClassifierKind::Enumeration.kind(), "enumeration");
    assert_eq!(ClassifierKind::Interface.kind(), "interface");
    assert_eq!(ClassifierKind::Primitive.kind(), "primitive");
}

#[test]
fn a_kind_renders_as_its_keyword() {
    for kind in [
        ClassifierKind::Class,
        ClassifierKind::DataType,
        ClassifierKind::Enumeration,
        ClassifierKind::Interface,
        ClassifierKind::Primitive,
    ] {
        assert_eq!(kind.render(), kind.kind());
    }
}

#[test]
fn keywords_are_camel_case_not_kebab_case() {
    assert_ne!(ClassifierKind::DataType.kind(), "data-type");
}

#[test]
fn kinds_compare_by_variant() {
    assert_eq!(ClassifierKind::Interface, ClassifierKind::Interface);
    assert_ne!(ClassifierKind::Interface, ClassifierKind::Class);
}

#[test]
fn text_renders_as_itself() {
    assert_eq!("id: UUID".render(), "id: UUID");
    assert_eq!(String::from("pay()").render(), "pay()");
    assert_eq!("".render(), "");
}
