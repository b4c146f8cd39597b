use uml_classifier::classifier::Classifier;
use uml_classifier::kind::ClassifierKind;
use uml_classifier::meta::MetaMap;
use uml_classifier::render::Render;

type Plain = Classifier<'static, String, &'static str, String>;

fn plain(kind: ClassifierKind, name: &'static str) -> Plain {
    Classifier {
        meta: MetaMap::new(),
        is_abstract: false,
        is_final: false,
        kind,
        name,
        id: None,
        stereotypes: vec![],
        attributes: vec![],
        operations: vec![],
    }
}

#[test]
fn class_with_one_attribute() {
    let mut c = plain(ClassifierKind::Class, "Order");
    c.attributes.push("id: UUID");
    assert_eq!(c.render(), "class Order {\n  id: UUID\n}");
}

#[test]
fn abstract_interface_shows_no_modifier() {
    let mut c = plain(ClassifierKind::Interface, "Comparable");
    c.is_abstract = true;
    assert_eq!(c.render(), "interface Comparable");
}

#[test]
fn final_data_type_with_stereotype_and_id() {
    let mut c = plain(ClassifierKind::DataType, "Point");
    c.id = Some("p1");
    c.is_final = true;
    c.stereotypes = vec!["ValueObject"];
    assert_eq!(c.render(), "final «ValueObject» dataType Point as p1");
}

#[test]
fn bare_declaration_has_no_decoration() {
    for kind in [
        ClassifierKind::Class,
        ClassifierKind::DataType,
        ClassifierKind::Enumeration,
        ClassifierKind::Interface,
        ClassifierKind::Primitive,
    ] {
        let mut c = plain(kind, "Thing");
        c.is_abstract = true;
        c.is_final = true;
        c.id = Some("t");
        let text = c.render();
        assert!(!text.contains("#["));
        assert!(!text.contains('«'));
        assert!(!text.contains('{'));
    }
}

#[test]
fn bare_class_is_keyword_and_name() {
    assert_eq!(plain(ClassifierKind::Class, "A").render(), "class A");
    assert_eq!(plain(ClassifierKind::Enumeration, "Colour").render(), "enumeration Colour");
    assert_eq!(plain(ClassifierKind::Primitive, "Int").render(), "primitive Int");
}

#[test]
fn interface_never_says_abstract() {
    let mut c = plain(ClassifierKind::Interface, "Shape");
    c.is_abstract = true;
    c.is_final = true;
    c.stereotypes = vec!["Drawable"];
    c.attributes = vec!["area: Real"];
    c.operations = vec!["draw()".to_string()];
    let text = c.render();
    assert!(!text.contains("abstract"));
    assert_eq!(text, "final «Drawable» interface Shape {\n  area: Real\n  draw()\n}");
}

#[test]
fn abstract_comes_before_final_and_keyword() {
    let mut c = plain(ClassifierKind::Class, "Base");
    c.is_abstract = true;
    c.is_final = true;
    c.stereotypes = vec!["Entity"];
    let text = c.render();
    assert_eq!(text, "abstract final «Entity» class Base");
    let at_abstract = text.find("abstract ").unwrap();
    let at_final = text.find("final ").unwrap();
    let at_keyword = text.find("class").unwrap();
    assert_eq!(at_abstract, 0);
    assert_eq!(at_final, at_abstract + "abstract ".len());
    assert!(at_final < at_keyword);
}

#[test]
fn abstract_alone() {
    let mut c = plain(ClassifierKind::DataType, "Money");
    c.is_abstract = true;
    assert_eq!(c.render(), "abstract dataType Money");
}

#[test]
fn stereotypes_keep_their_order() {
    let mut c = plain(ClassifierKind::Class, "User");
    c.stereotypes = vec!["Entity", "Serializable"];
    assert_eq!(c.render(), "«Entity, Serializable» class User");
    c.stereotypes = vec!["Serializable", "Entity"];
    assert_eq!(c.render(), "«Serializable, Entity» class User");
}

#[test]
fn stereotypes_are_not_deduplicated() {
    let mut c = plain(ClassifierKind::Class, "User");
    c.stereotypes = vec!["Entity", "Entity", "Entity"];
    assert_eq!(c.render(), "«Entity, Entity, Entity» class User");
}

#[test]
fn members_keep_their_order_attributes_first() {
    let mut c = plain(ClassifierKind::Class, "Cart");
    c.attributes = vec!["z: Int", "a: Int", "z: Int"];
    c.operations = vec!["b()".to_string(), "a()".to_string()];
    assert_eq!(
        c.render(),
        "class Cart {\n  z: Int\n  a: Int\n  z: Int\n  b()\n  a()\n}"
    );
}

#[test]
fn operations_alone_open_the_block() {
    let mut c = plain(ClassifierKind::Interface, "Runnable");
    c.operations = vec!["run()".to_string()];
    assert_eq!(c.render(), "interface Runnable {\n  run()\n}");
}

#[test]
fn id_follows_the_name() {
    let mut c = plain(ClassifierKind::Class, "Order");
    c.id = Some("o");
    c.attributes = vec!["id: UUID"];
    assert_eq!(c.render(), "class Order as o {\n  id: UUID\n}");
}

#[test]
fn annotations_stand_on_a_line_of_their_own() {
    let mut c = plain(ClassifierKind::Class, "Order");
    c.meta.insert("since", "1.2".to_string());
    assert_eq!(c.render(), "#[1.2]\nclass Order");
}

#[test]
fn annotations_follow_the_order_of_their_names() {
    let mut c = plain(ClassifierKind::Class, "Order");
    c.meta.insert("zeta", "last".to_string());
    c.meta.insert("alpha", "first".to_string());
    c.meta.insert("mid", "middle".to_string());
    assert_eq!(c.render(), "#[first, middle, last]\nclass Order");
}

#[test]
fn everything_at_once() {
    let mut c = plain(ClassifierKind::Class, "Order");
    c.meta.insert("b", "two".to_string());
    c.meta.insert("a", "one".to_string());
    c.is_abstract = true;
    c.is_final = true;
    c.id = Some("ord");
    c.stereotypes = vec!["Entity", "Aggregate"];
    c.attributes = vec!["id: UUID", "total: Money"];
    c.operations = vec!["pay()".to_string()];
    assert_eq!(
        c.render(),
        "#[one, two]\nabstract final «Entity, Aggregate» class Order as ord {\n  id: UUID\n  total: Money\n  pay()\n}"
    );
}

#[test]
fn no_line_break_at_the_end() {
    let mut c = plain(ClassifierKind::Class, "Order");
    assert!(!c.render().ends_with('\n'));
    c.attributes = vec!["id: UUID"];
    assert!(c.render().ends_with('}'));
}

#[test]
fn rendering_twice_gives_the_same_text() {
    let mut c = plain(ClassifierKind::Class, "Order");
    c.meta.insert("k", "v".to_string());
    c.stereotypes = vec!["Entity"];
    c.attributes = vec!["id: UUID"];
    assert_eq!(c.render(), c.render());
    assert_eq!(c.clone().render(), c.render());
}

#[test]
fn rendering_leaves_the_classifier_as_it_was() {
    let mut c = plain(ClassifierKind::Interface, "Comparable");
    c.is_abstract = true;
    let before = c.clone();
    let _ = c.render();
    assert!(c.is_abstract);
    assert!(c == before);
}

#[test]
fn a_classifier_can_be_a_member() {
    let inner = plain(ClassifierKind::Enumeration, "Status");
    let outer: Classifier<'static, String, Plain, String> = Classifier {
        meta: MetaMap::new(),
        is_abstract: false,
        is_final: false,
        kind: ClassifierKind::Class,
        name: "Order",
        id: None,
        stereotypes: vec![],
        attributes: vec![inner],
        operations: vec![],
    };
    assert_eq!(outer.render(), "class Order {\n  enumeration Status\n}");
}
