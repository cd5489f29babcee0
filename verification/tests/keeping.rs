use enum_dispatch::attribute::Attribute;
use enum_dispatch::cache::{cache_trait, defer_link, fulfilled_by_enum, Definition, Registry};
use enum_dispatch::enum_dispatch_item::EnumDispatchItem;
use enum_dispatch::enum_dispatch_variant::EnumDispatchVariant;
use enum_dispatch::generics::{GenericParam, GenericParamKind, Generics};
use enum_dispatch::item_trait::{
    FnArg, ItemTrait, Signature, TraitItem, TraitItemConst, TraitItemMethod,
};
use enum_dispatch::stored::{from_text, to_text};

fn chars(s: &str) -> String {
    s.to_string()
}

fn a_union() -> EnumDispatchItem {
    EnumDispatchItem {
        attrs: vec![Attribute::new("derive", "(Clone, Debug)")],
        vis: chars("pub(crate)"),
        ident: chars("Shape"),
        generics: Generics {
            params: vec![
                GenericParam {
                    kind: GenericParamKind::Lifetime,
                    ident: chars("'a"),
                    bounds: chars(""),
                    default: chars(""),
                },
                GenericParam {
                    kind: GenericParamKind::Type,
                    ident: chars("T"),
                    bounds: chars("Into<[u8; 2]>"),
                    default: chars("[u8; 2]"),
                },
                GenericParam {
                    kind: GenericParamKind::Const,
                    ident: chars("N"),
                    bounds: chars("usize"),
                    default: chars("3"),
                },
            ],
            where_clause: chars("where T: 'a"),
        },
        variants: vec![
            EnumDispatchVariant {
                deref: false,
                attrs: vec![],
                ident: chars("Circle"),
                field_attrs: vec![],
                ty: chars("Circle"),
            },
            EnumDispatchVariant {
                deref: true,
                attrs: vec![Attribute::new("cfg", "(feature = \"12:34[\")")],
                ident: chars("Boxed"),
                field_attrs: vec![Attribute::new("allow", "(unused)")],
                ty: chars("Box<Square<'a, T>>"),
            },
        ],
    }
}

fn an_interface() -> ItemTrait {
    ItemTrait {
        ident: chars("Measure"),
        generics: Generics::new(),
        unsafety: true,
        items: vec![
            TraitItem::Const(TraitItemConst {
                attrs: vec![],
                ident: chars("SIDES"),
                ty: chars("usize"),
                default: Some(chars("4")),
            }),
            TraitItem::Const(TraitItemConst {
                attrs: vec![Attribute::new("doc", " = \"π: [3\"")],
                ident: chars("LIMIT"),
                ty: chars("usize"),
                default: None,
            }),
            TraitItem::Type(chars("Item")),
            TraitItem::Other,
            TraitItem::Method(TraitItemMethod {
                attrs: vec![Attribute::new("must_use", "")],
                sig: Signature {
                    qualifiers: chars("unsafe"),
                    ident: chars("area"),
                    generics: Generics::new(),
                    inputs: vec![
                        FnArg::Receiver {
                            reference: true,
                            mutable: true,
                            tokens: chars("&mut self"),
                        },
                        FnArg::Typed { ident: Some(chars("scale")), tokens: chars("scale: u8") },
                        FnArg::Typed { ident: None, tokens: chars("_: Self::Item") },
                    ],
                    output: chars("-> Self::Item"),
                    associated: vec![chars("Item"), chars("Item")],
                },
            }),
        ],
    }
}

#[test]
fn a_text_is_written_with_its_length_in_front() {
    assert_eq!(to_text(&chars("hello")), "5:hello");
    assert_eq!(to_text(&chars("")), "0:");
    assert_eq!(to_text(&chars("twelve chars")), "12:twelve chars");
    assert_eq!(to_text(&chars("é:[")), "3:é:[");
    assert_eq!(to_text(&true), "1:1");
    assert_eq!(to_text(&false), "1:0");
    assert_eq!(to_text(&Some(chars("x"))), "1[1:x");
    assert_eq!(to_text(&None::<String>), "0[");
    assert_eq!(to_text(&vec![chars("a"), chars("bc")]), "2[1:a2:bc");
    assert_eq!(to_text(&Vec::<String>::new()), "0[");
    assert_eq!(to_text(&Attribute::new("cfg", "(test)")), "2[3:cfg6:(test)");
    assert_eq!(to_text(&GenericParamKind::Lifetime), "8:lifetime");
    assert_eq!(to_text(&TraitItem::Other), "1[5:other");
    assert_eq!(
        to_text(&FnArg::Receiver { reference: true, mutable: false, tokens: chars("&self") }),
        "4[4:self1:11:05:&self"
    );
}

#[test]
fn a_text_is_read_by_its_length() {
    assert_eq!(from_text::<String>("5:hello"), Some(chars("hello")));
    assert_eq!(from_text::<String>("0:"), Some(chars("")));
    assert_eq!(from_text::<String>("3:é:["), Some(chars("é:[")));
    assert_eq!(from_text::<String>("7:1:2[3:4"), Some(chars("1:2[3:4")));
    assert_eq!(from_text::<bool>("1:1"), Some(true));
    assert_eq!(from_text::<bool>("1:0"), Some(false));
    assert_eq!(from_text::<Option<String>>("0["), Some(None));
    assert_eq!(from_text::<Option<String>>("1[2:ab"), Some(Some(chars("ab"))));
    assert_eq!(from_text::<Vec<String>>("2[1:a2:bc"), Some(vec![chars("a"), chars("bc")]));
    assert_eq!(from_text::<Vec<bool>>("3[1:11:01:1"), Some(vec![true, false, true]));
    assert_eq!(from_text::<GenericParamKind>("5:const"), Some(GenericParamKind::Const));
}

#[test]
fn what_is_no_text_of_a_value_is_turned_away() {
    // Too short, too long, no length, no mark.
    assert_eq!(from_text::<String>("5:hell"), None);
    assert_eq!(from_text::<String>("5:hello!"), None);
    assert_eq!(from_text::<String>(":hello"), None);
    assert_eq!(from_text::<String>("5hello"), None);
    assert_eq!(from_text::<String>(""), None);
    assert_eq!(from_text::<String>("99999999999999999999999999:x"), None);
    // A list where a text is expected, and the other way round.
    assert_eq!(from_text::<String>("1[1:a"), None);
    assert_eq!(from_text::<Vec<String>>("1:a"), None);
    assert_eq!(from_text::<Vec<String>>("2[1:a"), None);
    assert_eq!(from_text::<Vec<String>>("1[1:a1:b"), None);
    assert_eq!(from_text::<bool>("1:2"), None);
    assert_eq!(from_text::<bool>("4:true"), None);
    assert_eq!(from_text::<Option<String>>("2[1:a1:b"), None);
    assert_eq!(from_text::<GenericParamKind>("4:kind"), None);
    assert!(from_text::<Attribute>("3[1:a1:b1:c").is_none());
    assert!(from_text::<Attribute>("2[1:a1[1:b").is_none());
    assert!(from_text::<TraitItem>("1[6:method").is_none());
    assert!(from_text::<TraitItem>("2[5:other1:x").is_none());
    assert!(from_text::<FnArg>("3[4:self1:11:0").is_none());
    // The text of a union is not the text of an interface.
    assert!(from_text::<ItemTrait>(&to_text(&a_union())).is_none());
    assert!(from_text::<EnumDispatchItem>(&to_text(&an_interface())).is_none());
}

#[test]
fn a_union_is_kept_whole() {
    let union = a_union();
    let text = to_text(&union);
    let read = from_text::<EnumDispatchItem>(&text).expect("the union");
    assert_eq!(to_text(&read), text);
    assert_eq!(read.vis, "pub(crate)");
    assert_eq!(read.ident, "Shape");
    assert_eq!(read.generics.params.len(), 3);
    assert_eq!(read.generics.params[1].bounds, "Into<[u8; 2]>");
    assert_eq!(read.generics.params[2].kind, GenericParamKind::Const);
    assert_eq!(read.generics.where_clause, "where T: 'a");
    assert_eq!(read.variants.len(), 2);
    assert!(read.variants[1].deref);
    assert!(!read.variants[0].deref);
    assert_eq!(read.variants[1].attrs[0].tokens, "(feature = \"12:34[\")");
    assert_eq!(read.variants[1].field_attrs[0].path, "allow");
    assert_eq!(read.variants[1].ty, "Box<Square<'a, T>>");
}

#[test]
fn an_interface_is_kept_whole() {
    let interface = an_interface();
    let text = to_text(&interface);
    let read = from_text::<ItemTrait>(&text).expect("the interface");
    assert_eq!(to_text(&read), text);
    assert!(read.unsafety);
    assert_eq!(read.items.len(), 5);
    match &read.items[1] {
        TraitItem::Const(constant) => {
            assert_eq!(constant.ident, "LIMIT");
            assert_eq!(constant.default, None);
            assert_eq!(constant.attrs[0].tokens, " = \"π: [3\"");
        }
        _ => panic!("a constant"),
    }
    assert!(matches!(&read.items[2], TraitItem::Type(name) if name == "Item"));
    assert!(matches!(&read.items[3], TraitItem::Other));
    match &read.items[4] {
        TraitItem::Method(method) => {
            assert_eq!(method.sig.qualifiers, "unsafe");
            assert_eq!(method.sig.inputs.len(), 3);
            assert!(matches!(
                &method.sig.inputs[0],
                FnArg::Receiver { reference: true, mutable: true, tokens } if tokens == "&mut self"
            ));
            assert!(matches!(&method.sig.inputs[2], FnArg::Typed { ident: None, .. }));
            assert_eq!(method.sig.associated, ["Item", "Item"]);
            assert_eq!(method.sig.output, "-> Self::Item");
        }
        _ => panic!("a method"),
    }
}

#[test]
fn a_declaration_is_kept_with_its_kind() {
    let text = to_text(&Definition::Trait(an_interface()));
    assert!(text.starts_with("2[5:trait4[7:Measure"));
    assert!(matches!(from_text::<Definition>(&text), Some(Definition::Trait(_))));
    let text = to_text(&Definition::Enum(a_union()));
    assert!(text.starts_with("2[4:enum5["));
    assert!(matches!(from_text::<Definition>(&text), Some(Definition::Enum(_))));
}

#[test]
fn the_registry_gives_back_what_it_was_given() {
    let mut registry = Registry::new();
    cache_trait(&mut registry, an_interface());
    defer_link(&mut registry, &chars("Measure"), &chars("Shape"));
    let fulfilled = fulfilled_by_enum(&mut registry, &chars("Shape"));
    assert_eq!(fulfilled.len(), 1);
    assert_eq!(to_text(&fulfilled[0]), to_text(&an_interface()));
}
