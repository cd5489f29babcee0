use enum_dispatch::attributed_parser::ParsedItem;
use enum_dispatch::cache::{
    cache_enum_conversion_impls_defined, cache_enum_dispatch, cache_trait,
    conversion_impls_def_by_enum, defer_link, fulfilled_by_enum, fulfilled_by_trait, remove_entry,
    Registry,
};
use enum_dispatch::enum_dispatch_item::EnumDispatchItem;
use enum_dispatch::enum_dispatch_variant::EnumDispatchVariant;
use enum_dispatch::generics::Generics;
use enum_dispatch::item_trait::ItemTrait;
use enum_dispatch::resolution::declare;
use enum_dispatch::text::ToTokens;

fn name(s: &str) -> String {
    s.to_string()
}

fn interface_named(ident: &str, unsafety: bool) -> ItemTrait {
    ItemTrait { ident: name(ident), generics: Generics::new(), unsafety, items: vec![] }
}

fn union_named(ident: &str, variants: &[&str]) -> EnumDispatchItem {
    EnumDispatchItem {
        attrs: vec![],
        vis: name(""),
        ident: name(ident),
        generics: Generics::new(),
        variants: variants
            .iter()
            .map(|variant| EnumDispatchVariant {
                deref: false,
                attrs: vec![],
                ident: name(variant),
                field_attrs: vec![],
                ty: name(variant),
            })
            .collect(),
    }
}

fn names_of_traits(items: &[ItemTrait]) -> Vec<String> {
    items.iter().map(|item| item.ident.clone()).collect()
}

fn names_of_unions(items: &[EnumDispatchItem]) -> Vec<String> {
    items.iter().map(|item| item.ident.clone()).collect()
}

#[test]
fn links_are_fulfilled_in_the_order_recorded() {
    let mut registry = Registry::new();
    cache_trait(&mut registry, interface_named("First", false));
    cache_trait(&mut registry, interface_named("Second", false));
    defer_link(&mut registry, &name("Second"), &name("Union"));
    defer_link(&mut registry, &name("First"), &name("Union"));
    let fulfilled = fulfilled_by_enum(&mut registry, &name("Union"));
    assert_eq!(names_of_traits(&fulfilled), ["Second", "First"]);
}

#[test]
fn a_link_fires_once() {
    let mut registry = Registry::new();
    cache_trait(&mut registry, interface_named("Shape", false));
    defer_link(&mut registry, &name("Shape"), &name("Union"));
    assert_eq!(fulfilled_by_enum(&mut registry, &name("Union")).len(), 1);
    assert!(fulfilled_by_enum(&mut registry, &name("Union")).is_empty());
}

#[test]
fn a_link_recorded_twice_waits_twice() {
    let mut registry = Registry::new();
    cache_enum_dispatch(&mut registry, union_named("Union", &["A"]));
    defer_link(&mut registry, &name("Shape"), &name("Union"));
    defer_link(&mut registry, &name("Shape"), &name("Union"));
    let fulfilled = fulfilled_by_trait(&mut registry, &name("Shape"));
    assert_eq!(names_of_unions(&fulfilled), ["Union", "Union"]);
}

#[test]
fn a_link_to_nothing_stored_is_passed_over() {
    let mut registry = Registry::new();
    cache_trait(&mut registry, interface_named("Known", false));
    defer_link(&mut registry, &name("Unknown"), &name("Union"));
    defer_link(&mut registry, &name("Known"), &name("Union"));
    let fulfilled = fulfilled_by_enum(&mut registry, &name("Union"));
    assert_eq!(names_of_traits(&fulfilled), ["Known"]);
    // Nothing waits for a name that was never linked.
    assert!(fulfilled_by_enum(&mut registry, &name("Stranger")).is_empty());
    assert!(fulfilled_by_trait(&mut registry, &name("Stranger")).is_empty());
}

#[test]
fn a_name_stands_for_one_declaration() {
    let mut registry = Registry::new();
    cache_trait(&mut registry, interface_named("Shape", false));
    cache_enum_dispatch(&mut registry, union_named("Shape", &["A"]));
    defer_link(&mut registry, &name("Shape"), &name("Other"));
    // The union took the interface's place under the name.
    assert!(fulfilled_by_enum(&mut registry, &name("Other")).is_empty());
    defer_link(&mut registry, &name("Shape"), &name("Other"));
    assert_eq!(names_of_unions(&fulfilled_by_trait(&mut registry, &name("Other"))), ["Shape"]);
}

#[test]
fn a_later_declaration_replaces_an_earlier_one() {
    let mut registry = Registry::new();
    cache_trait(&mut registry, interface_named("Shape", false));
    cache_trait(&mut registry, interface_named("Shape", true));
    defer_link(&mut registry, &name("Shape"), &name("Union"));
    let fulfilled = fulfilled_by_enum(&mut registry, &name("Union"));
    assert_eq!(fulfilled.len(), 1);
    assert!(fulfilled[0].unsafety);

    let mut registry = Registry::new();
    cache_enum_dispatch(&mut registry, union_named("Union", &["A"]));
    cache_enum_dispatch(&mut registry, union_named("Union", &["A", "B"]));
    defer_link(&mut registry, &name("Union"), &name("Shape"));
    let fulfilled = fulfilled_by_trait(&mut registry, &name("Shape"));
    assert_eq!(fulfilled.len(), 1);
    assert_eq!(fulfilled[0].variants.len(), 2);
}

#[test]
fn removed_links_are_gone() {
    let mut registry = Registry::new();
    cache_trait(&mut registry, interface_named("Shape", false));
    cache_enum_dispatch(&mut registry, union_named("Union", &["A"]));
    defer_link(&mut registry, &name("Shape"), &name("Union"));
    remove_entry(&mut registry, &name("Union"));
    assert!(fulfilled_by_enum(&mut registry, &name("Union")).is_empty());
    // The link in the other direction is a record of its own.
    assert_eq!(fulfilled_by_trait(&mut registry, &name("Shape")).len(), 1);
    remove_entry(&mut registry, &name("Never"));
}

#[test]
fn conversions_are_remembered_by_name_and_arity() {
    let mut registry = Registry::new();
    assert!(!conversion_impls_def_by_enum(&registry, &name("Union"), 0));
    cache_enum_conversion_impls_defined(&mut registry, name("Union"), 0);
    assert!(conversion_impls_def_by_enum(&registry, &name("Union"), 0));
    assert!(!conversion_impls_def_by_enum(&registry, &name("Union"), 1));
    assert!(!conversion_impls_def_by_enum(&registry, &name("Other"), 0));
    // Nothing that follows takes it back.
    cache_enum_dispatch(&mut registry, union_named("Union", &["A"]));
    defer_link(&mut registry, &name("Shape"), &name("Union"));
    remove_entry(&mut registry, &name("Union"));
    cache_enum_conversion_impls_defined(&mut registry, name("Union"), 1);
    assert!(conversion_impls_def_by_enum(&registry, &name("Union"), 0));
    assert!(conversion_impls_def_by_enum(&registry, &name("Union"), 1));
}

fn generated_text(registry: &mut Registry, item: ParsedItem, targets: &[&str]) -> Vec<String> {
    let targets: Vec<String> = targets.iter().map(|target| name(target)).collect();
    declare(registry, item, &targets)
        .iter()
        .map(|expansion| {
            let mut text = String::new();
            expansion.to_tokens(&mut text);
            text
        })
        .collect()
}

#[test]
fn the_order_of_declaration_does_not_matter() {
    let union = || ParsedItem::EnumDispatch(union_named("Union", &["A", "B"]));
    let interface = || ParsedItem::Trait(interface_named("Shape", false));

    let mut union_first = Registry::new();
    assert!(generated_text(&mut union_first, union(), &["Shape"]).is_empty());
    let late = generated_text(&mut union_first, interface(), &[]);

    let mut interface_first = Registry::new();
    assert!(generated_text(&mut interface_first, interface(), &[]).is_empty());
    let early = generated_text(&mut interface_first, union(), &["Shape"]);

    assert_eq!(late.len(), 1);
    assert_eq!(late, early);

    // The same where the interface names the union.
    let mut named_by_interface = Registry::new();
    assert!(generated_text(&mut named_by_interface, interface(), &["Union"]).is_empty());
    assert_eq!(generated_text(&mut named_by_interface, union(), &[]), late);
}

#[test]
fn a_union_is_paired_with_each_interface_it_names() {
    let mut registry = Registry::new();
    let union = ParsedItem::EnumDispatch(union_named("Union", &["A", "B"]));
    assert!(generated_text(&mut registry, union, &["Shape", "Sound"]).is_empty());
    let for_shape =
        declare(&mut registry, ParsedItem::Trait(interface_named("Shape", false)), &vec![]);
    let for_sound =
        declare(&mut registry, ParsedItem::Trait(interface_named("Sound", false)), &vec![]);
    assert_eq!(for_shape.len(), 1);
    assert_eq!(for_sound.len(), 1);
    // The conversions come with the first pairing only.
    assert_eq!(for_shape[0].from_impls.len(), 2);
    assert_eq!(for_shape[0].try_into_impls.len(), 2);
    assert!(for_sound[0].from_impls.is_empty());
    assert!(for_sound[0].try_into_impls.is_empty());
    assert_eq!(for_sound[0].trait_impl.trait_name, "Sound");
    assert!(conversion_impls_def_by_enum(&registry, &name("Union"), 0));
}

#[test]
fn an_interface_that_never_arrives_leaves_nothing() {
    let mut registry = Registry::new();
    let union = ParsedItem::EnumDispatch(union_named("Union", &["A"]));
    assert!(generated_text(&mut registry, union, &["Missing"]).is_empty());
    assert!(!conversion_impls_def_by_enum(&registry, &name("Union"), 0));
}
