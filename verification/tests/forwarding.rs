use enum_dispatch::attribute::{used_attributes, Attribute};
use enum_dispatch::attributed_parser::ParsedItem;
use enum_dispatch::cache::Registry;
use enum_dispatch::dispatch::{Configuration, Extraction};
use enum_dispatch::enum_dispatch_item::{EnumDispatchItem, ItemSyntax};
use enum_dispatch::enum_dispatch_variant::{FieldSyntax, FieldsSyntax, VariantSyntax};
use enum_dispatch::expansion::add_enum_impls;
use enum_dispatch::generics::Generics;
use enum_dispatch::impl_blocks::Expansion;
use enum_dispatch::item_trait::{
    FnArg, ItemTrait, Signature, TraitItem, TraitItemConst, TraitItemMethod,
};
use enum_dispatch::resolution::declare;
use enum_dispatch::text::ToTokens;

fn text(s: &str) -> String {
    s.to_string()
}

fn bare(name: &str) -> VariantSyntax {
    VariantSyntax { attrs: vec![], ident: text(name), fields: FieldsSyntax::Unit }
}

fn wrapping(attrs: Vec<Attribute>, name: &str, ty: &str) -> VariantSyntax {
    VariantSyntax {
        attrs,
        ident: text(name),
        fields: FieldsSyntax::Unnamed(vec![FieldSyntax { attrs: vec![], ty: text(ty) }]),
    }
}

fn union(name: &str, variants: Vec<VariantSyntax>) -> EnumDispatchItem {
    EnumDispatchItem::parse(ItemSyntax {
        attrs: vec![],
        vis: text(""),
        ident: text(name),
        generics: Generics::new(),
        variants,
    })
    .ok()
    .expect("every variant has a shape that can be read")
}

fn by_reference() -> FnArg {
    FnArg::Receiver { reference: true, mutable: false, tokens: text("&self") }
}

fn method(name: &str, inputs: Vec<FnArg>, output: &str) -> TraitItem {
    TraitItem::Method(TraitItemMethod {
        attrs: vec![],
        sig: Signature {
            qualifiers: text(""),
            ident: text(name),
            generics: Generics::new(),
            inputs,
            output: text(output),
            associated: vec![],
        },
    })
}

fn interface(name: &str, items: Vec<TraitItem>) -> ItemTrait {
    ItemTrait { ident: text(name), generics: Generics::new(), unsafety: false, items }
}

/// The tag of the union value that the generated conversion makes of a value of type `ty`.
fn from(expansion: &Expansion, ty: &str) -> String {
    let block = expansion
        .from_impls
        .iter()
        .find(|block| block.variant_type == ty)
        .expect("a conversion from the type");
    block.variant_name.clone()
}

/// The type on which the forwarding method `name` calls the interface's method for a union
/// value that holds the variant `tag`: the wrapped type, or what it points to where the
/// call goes through a dereference.
fn target(
    expansion: &Expansion,
    union: &EnumDispatchItem,
    name: &str,
    tag: &str,
    config: &Configuration,
) -> String {
    let method = expansion
        .trait_impl
        .methods
        .iter()
        .find(|method| method.sig.ident == name)
        .expect("a forwarding method of that name");
    let at = method.taken_arm(&text(tag), config).expect("an arm for the variant");
    let arm = &method.body.arms[at];
    assert_eq!(arm.body.method_name, name);
    assert_eq!(arm.variant_name, tag);
    let variant = union
        .variants
        .iter()
        .find(|variant| variant.ident == tag && config.includes(&used_attributes(&variant.attrs)))
        .expect("the variant");
    if arm.deref {
        let open = variant.ty.find('<').expect("an indirection");
        variant.ty[open + 1..variant.ty.len() - 1].to_string()
    } else {
        variant.ty.clone()
    }
}

#[test]
fn consts_main() {
    // trait HasConst { const CONST: char = ' '; type Item; fn method(&self) -> char }
    let has_const = interface(
        "HasConst",
        vec![
            TraitItem::Const(TraitItemConst {
                attrs: vec![],
                ident: text("CONST"),
                ty: text("char"),
                default: Some(text("' '")),
            }),
            TraitItem::Type(text("Item")),
            method("method", vec![by_reference()], "-> char"),
        ],
    );
    // impl HasConst for A { const CONST: char = 'A'; } and the same for B with 'B'.
    let method_of = |ty: &str| match ty {
        "A" => 'A',
        "B" => 'B',
        _ => unreachable!(),
    };
    let variant = union("Variant", vec![wrapping(vec![], "A", "A"), wrapping(vec![], "B", "B")]);

    let mut registry = Registry::new();
    assert!(declare(&mut registry, ParsedItem::Trait(has_const), &vec![]).is_empty());
    let generated =
        declare(&mut registry, ParsedItem::EnumDispatch(variant.clone()), &vec![text("HasConst")]);
    assert_eq!(generated.len(), 1);
    let expansion = &generated[0];
    let config = Configuration::new();

    let letter_a = from(expansion, "A");
    let letter_b = from(expansion, "B");
    assert_eq!(method_of(&target(expansion, &variant, "method", &letter_a, &config)), 'A');
    assert_eq!(method_of(&target(expansion, &variant, "method", &letter_b, &config)), 'B');
}

#[test]
fn deref_types_rev_main() {
    let deref = || Attribute::new("enum_dispatch", "(deref)");
    let written = ItemSyntax {
        attrs: vec![],
        vis: text(""),
        ident: text("Enum"),
        generics: Generics::new(),
        variants: vec![
            bare("A"),
            wrapping(vec![deref()], "B1", "Rc<B>"),
            wrapping(vec![deref()], "B2", "Arc<B>"),
            wrapping(vec![deref(), Attribute::new("cfg", "(test)")], "C1", "Rc<A>"),
            wrapping(vec![Attribute::new("cfg", "(not(test))")], "C2", "Rc<A>"),
        ],
    };
    let union = EnumDispatchItem::parse(written).ok().expect("a union");
    let my_trait =
        interface("MyTrait", vec![method("do_something", vec![by_reference()], "-> &'static str")]);
    let do_something = |ty: &str| match ty {
        "A" => "a",
        "B" => "b",
        _ => unreachable!(),
    };

    // The union is declared before the interface it names.
    let mut registry = Registry::new();
    assert!(declare(
        &mut registry,
        ParsedItem::EnumDispatch(union.clone()),
        &vec![text("MyTrait")]
    )
    .is_empty());
    let generated = declare(&mut registry, ParsedItem::Trait(my_trait), &vec![]);
    assert_eq!(generated.len(), 1);
    let expansion = &generated[0];
    // The tests are built with `test` set.
    let config = Configuration { disabled: vec![Attribute::new("cfg", "(not(test))")] };

    let a = text("A");
    let b1 = text("B1");
    let b2 = text("B2");
    let c1 = text("C1");

    assert_eq!(do_something(&target(expansion, &union, "do_something", &a, &config)), "a");
    assert_eq!(do_something(&target(expansion, &union, "do_something", &b1, &config)), "b");
    assert_eq!(do_something(&target(expansion, &union, "do_something", &b2, &config)), "b");
    assert_eq!(do_something(&target(expansion, &union, "do_something", &c1, &config)), "a");
}

#[test]
fn extend_main() {
    // trait Trait { fn baz(&self) -> u8 { 0 } }
    let trait_def = interface("Trait", vec![method("baz", vec![by_reference()], "-> u8")]);
    // Foo keeps the default, Bar answers 1, Baz answers its own number.
    let num: u8 = 11;
    let baz = |ty: &str| match ty {
        "Foo" => 0,
        "Bar" => 1,
        "Baz" => num,
        _ => unreachable!(),
    };
    // The union that is extended brings its variants; the extension adds its own.
    let trait_default = union("TraitDefault", vec![bare("Foo"), bare("Bar")]);
    let mut variants: Vec<VariantSyntax> =
        trait_default.variants.iter().map(|variant| bare(&variant.ident)).collect();
    variants.push(bare("Baz"));
    let extended = union("Extended", variants);

    let mut registry = Registry::new();
    let expansion = add_enum_impls(&mut registry, extended.clone(), trait_def);
    let config = Configuration::new();

    let foo = from(&expansion, "Foo");
    let bar = from(&expansion, "Bar");
    let baz_value = from(&expansion, "Baz");

    assert_eq!(baz(&target(&expansion, &extended, "baz", &foo, &config)), 0);
    assert_eq!(baz(&target(&expansion, &extended, "baz", &bar, &config)), 1);
    assert_eq!(baz(&target(&expansion, &extended, "baz", &baz_value, &config)), 11);
}

#[test]
fn default_and_override_are_both_reached() {
    let trait_def = interface("Trait", vec![method("baz", vec![by_reference()], "-> u8")]);
    let baz = |ty: &str| match ty {
        "Foo" => 0,
        "Bar" => 1,
        _ => unreachable!(),
    };
    let trait_default = union("TraitDefault", vec![bare("Foo"), bare("Bar")]);
    let mut registry = Registry::new();
    let expansion = add_enum_impls(&mut registry, trait_default.clone(), trait_def);
    let config = Configuration::new();
    assert_eq!(baz(&target(&expansion, &trait_default, "baz", "Foo", &config)), 0);
    assert_eq!(baz(&target(&expansion, &trait_default, "baz", "Bar", &config)), 1);

    let mut code = String::new();
    expansion.to_tokens(&mut code);
    let file = syn::parse_str::<syn::File>(&code).expect("generated code is source text");
    // Two conversions into the union, two extractions, one forwarding implementation.
    assert_eq!(file.items.len(), 5);
}

#[test]
fn extraction_names_both_variants() {
    let trait_def = interface("Trait", vec![]);
    let trait_default = union("TraitDefault", vec![bare("Foo"), bare("Bar")]);
    let mut registry = Registry::new();
    let expansion = add_enum_impls(&mut registry, trait_default, trait_def);
    let config = Configuration::new();
    let into_foo = &expansion.try_into_impls[0];
    let into_bar = &expansion.try_into_impls[1];
    let foo = from(&expansion, "Foo");
    assert_eq!(into_foo.outcome(&foo, &config), Extraction::Extracted);
    assert_eq!(
        into_bar.outcome(&foo, &config),
        Extraction::Mismatch(text("Tried to convert variant Foo to Bar"))
    );
    assert_eq!(
        into_foo.outcome(&text("Bar"), &config),
        Extraction::Mismatch(text("Tried to convert variant Bar to Foo"))
    );
    assert_eq!(into_foo.outcome(&text("Qux"), &config), Extraction::Unmatched);
}
