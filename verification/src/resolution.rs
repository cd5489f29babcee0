//! Declaring an item: storing it, linking it to the names it mentions, and generating for
//! each pairing that is complete from this moment on.

use vstd::prelude::*;
use vstd::string::*;

use crate::attributed_parser::{ParsedItem, ParsedItemView};
use crate::cache::{
    cache_enum_dispatch, cache_trait, defer_link, fulfilled_by_enum, fulfilled_by_trait, Registry,
    RegistryView,
};
use crate::enum_dispatch_item::EnumDispatchItemView;
use crate::expansion::{add_enum_impls, expansion};
use crate::impl_blocks::{Expansion, ExpansionView};
use crate::item_trait::ItemTraitView;
use crate::views::{
    lemma_deep_view_entries, lemma_deep_view_push, lemma_deep_view_take_all,
    lemma_deep_view_take_next,
};

verus! {

/// The name under which an item is declared.
pub open spec fn declared_name(item: ParsedItemView) -> Seq<char> {
    match item {
        ParsedItemView::Trait(item) => item.ident,
        ParsedItemView::EnumDispatch(item) => item.ident,
        ParsedItemView::Module(item) => item.ident,
    }
}

/// The registry after the item `name` was linked to each of `targets`, in their order.
pub open spec fn linked_to_all(
    registry: RegistryView,
    targets: Seq<Seq<char>>,
    name: Seq<char>,
) -> RegistryView
    decreases targets.len(),
{
    if targets.len() == 0 {
        registry
    } else {
        linked_to_all(registry, targets.drop_last(), name).with_link(targets.last(), name)
    }
}

/// The registry in which an item is stored and linked to the names it mentions.
pub open spec fn stored_and_linked(
    registry: RegistryView,
    item: ParsedItemView,
    targets: Seq<Seq<char>>,
) -> RegistryView {
    match item {
        ParsedItemView::Trait(traitdef) => linked_to_all(
            registry.with_trait(traitdef),
            targets,
            traitdef.ident,
        ),
        ParsedItemView::EnumDispatch(enum_def) => linked_to_all(
            registry.with_enum(enum_def),
            targets,
            enum_def.ident,
        ),
        ParsedItemView::Module(_) => registry,
    }
}

/// The pairings of a union with an interface that the declaration of `item` completes, in
/// the order in which the links were recorded. `registry` is the registry in which the
/// item is stored and linked already.
pub open spec fn completed_pairings(registry: RegistryView, item: ParsedItemView) -> Seq<
    (EnumDispatchItemView, ItemTraitView),
> {
    match item {
        ParsedItemView::Trait(traitdef) => registry.linked_enums(traitdef.ident).map_values(
            |enum_def: EnumDispatchItemView| (enum_def, traitdef),
        ),
        ParsedItemView::EnumDispatch(enum_def) => registry.linked_traits(
            enum_def.ident,
        ).map_values(|traitdef: ItemTraitView| (enum_def, traitdef)),
        ParsedItemView::Module(_) => Seq::empty(),
    }
}

/// The registry after generating for each of `pairings` in turn.
pub open spec fn registry_after(
    registry: RegistryView,
    pairings: Seq<(EnumDispatchItemView, ItemTraitView)>,
) -> RegistryView
    decreases pairings.len(),
{
    if pairings.len() == 0 {
        registry
    } else {
        registry_after(registry, pairings.drop_last()).with_conversions(
            pairings.last().0.ident,
            pairings.last().0.generics.arity(),
        )
    }
}

/// What is generated for each of `pairings` in turn: for each union its conversions the
/// first time it is met, and the forwarding implementation every time.
pub open spec fn generated_for(
    registry: RegistryView,
    pairings: Seq<(EnumDispatchItemView, ItemTraitView)>,
) -> Seq<ExpansionView>
    decreases pairings.len(),
{
    if pairings.len() == 0 {
        Seq::empty()
    } else {
        let (enum_def, traitdef) = pairings.last();
        generated_for(registry, pairings.drop_last()).push(
            expansion(
                enum_def,
                traitdef,
                registry_after(registry, pairings.drop_last()).has_conversions(
                    enum_def.ident,
                    enum_def.generics.arity(),
                ),
            ),
        )
    }
}

/// The registry after the declaration of `item`, which mentions `targets`.
pub open spec fn registry_after_declaring(
    registry: RegistryView,
    item: ParsedItemView,
    targets: Seq<Seq<char>>,
) -> RegistryView {
    let linked = stored_and_linked(registry, item, targets);
    match item {
        ParsedItemView::Module(_) => registry,
        _ => registry_after(
            linked.forgetting(declared_name(item)),
            completed_pairings(linked, item),
        ),
    }
}

/// What the declaration of `item`, which mentions `targets`, generates.
pub open spec fn generated_by_declaring(
    registry: RegistryView,
    item: ParsedItemView,
    targets: Seq<Seq<char>>,
) -> Seq<ExpansionView> {
    let linked = stored_and_linked(registry, item, targets);
    generated_for(linked.forgetting(declared_name(item)), completed_pairings(linked, item))
}

/// Links the item `name` to each of `targets`.
fn link_all(registry: &mut Registry, targets: &Vec<String>, name: &String)
    ensures
        final(registry)@ == linked_to_all(old(registry)@, targets.deep_view(), name@),
{
    let mut i: usize = 0;
    proof {
        lemma_deep_view_entries(*targets);
    }
    while i < targets.len()
        invariant
            i <= targets.len(),
            registry@ == linked_to_all(old(registry)@, targets.deep_view().take(i as int), name@),
        decreases targets.len() - i,
    {
        proof {
            lemma_deep_view_take_next(*targets, i as int);
        }
        defer_link(registry, &targets[i], name);
        i += 1;
    }
    proof {
        lemma_deep_view_take_all(*targets);
    }
}

/// Takes in the declaration of an item that mentions `targets`: stores it, links it to
/// each of `targets`, and generates for every pairing that the declaration completes.
///
/// A pairing is complete when both its union and its interface are stored. The links that
/// waited for the declared item are taken up here and removed, so that each fires once. A
/// link whose other side is not stored stays inert: nothing is generated for it, and
/// nothing fails. A module is neither stored nor linked.
pub fn declare(registry: &mut Registry, item: ParsedItem, targets: &Vec<String>) -> (r: Vec<
    Expansion,
>)
    ensures
        r.deep_view() == generated_by_declaring(old(registry)@, item@, targets.deep_view()),
        final(registry)@ == registry_after_declaring(old(registry)@, item@, targets.deep_view()),
{
    let mut expanded: Vec<Expansion> = Vec::new();
    proof {
        lemma_deep_view_entries(expanded);
    }
    match item {
        ParsedItem::Trait(traitdef) => {
            let name = traitdef.ident.clone();
            cache_trait(registry, traitdef.clone());
            link_all(registry, targets, &name);
            let ghost linked = registry@;
            let additional_enums = fulfilled_by_trait(registry, &name);
            let ghost start = registry@;
            let ghost pairing = |enum_def: EnumDispatchItemView| (enum_def, traitdef@);
            let ghost pairings = additional_enums.deep_view().map_values(pairing);
            let mut i: usize = 0;
            proof {
                lemma_deep_view_entries(additional_enums);
                assert(expanded.deep_view() =~= generated_for(start, pairings.take(0)));
            }
            while i < additional_enums.len()
                invariant
                    i <= additional_enums.len(),
                    pairing == (|enum_def: EnumDispatchItemView| (enum_def, traitdef@)),
                    pairings == additional_enums.deep_view().map_values(pairing),
                    pairings.len() == additional_enums.len(),
                    registry@ == registry_after(start, pairings.take(i as int)),
                    expanded.deep_view() == generated_for(start, pairings.take(i as int)),
                decreases additional_enums.len() - i,
            {
                let ghost before = expanded;
                proof {
                    lemma_deep_view_entries(additional_enums);
                    assert(pairings.take(i + 1).drop_last() =~= pairings.take(i as int));
                    assert(pairings.take(i + 1).last() == (
                        additional_enums[i as int]@,
                        traitdef@,
                    ));
                }
                let one = add_enum_impls(registry, additional_enums[i].clone(), traitdef.clone());
                expanded.push(one);
                proof {
                    lemma_deep_view_push(before, expanded, one);
                }
                i += 1;
            }
            proof {
                assert(pairings.take(additional_enums.len() as int) =~= pairings);
            }
        },
        ParsedItem::EnumDispatch(enum_def) => {
            let name = enum_def.ident.clone();
            cache_enum_dispatch(registry, enum_def.clone());
            link_all(registry, targets, &name);
            let additional_traits = fulfilled_by_enum(registry, &name);
            let ghost start = registry@;
            let ghost pairing = |traitdef: ItemTraitView| (enum_def@, traitdef);
            let ghost pairings = additional_traits.deep_view().map_values(pairing);
            let mut i: usize = 0;
            proof {
                lemma_deep_view_entries(additional_traits);
                assert(expanded.deep_view() =~= generated_for(start, pairings.take(0)));
            }
            while i < additional_traits.len()
                invariant
                    i <= additional_traits.len(),
                    pairing == (|traitdef: ItemTraitView| (enum_def@, traitdef)),
                    pairings == additional_traits.deep_view().map_values(pairing),
                    pairings.len() == additional_traits.len(),
                    registry@ == registry_after(start, pairings.take(i as int)),
                    expanded.deep_view() == generated_for(start, pairings.take(i as int)),
                decreases additional_traits.len() - i,
            {
                let ghost before = expanded;
                proof {
                    lemma_deep_view_entries(additional_traits);
                    assert(pairings.take(i + 1).drop_last() =~= pairings.take(i as int));
                    assert(pairings.take(i + 1).last() == (
                        enum_def@,
                        additional_traits[i as int]@,
                    ));
                }
                let one = add_enum_impls(registry, enum_def.clone(), additional_traits[i].clone());
                expanded.push(one);
                proof {
                    lemma_deep_view_push(before, expanded, one);
                }
                i += 1;
            }
            proof {
                assert(pairings.take(additional_traits.len() as int) =~= pairings);
            }
        },
        ParsedItem::Module(_) => {
            proof {
                assert(expanded.deep_view() =~= Seq::<ExpansionView>::empty());
            }
        },
    }
    expanded
}

/// What declaring gives where the item mentions at most one name, and where at most one
/// declaration waits for it.
proof fn lemma_declaring_simple(
    registry: RegistryView,
    item: ParsedItemView,
    targets: Seq<Seq<char>>,
)
    requires
        targets.len() <= 1,
        !(item is Module),
    ensures
        stored_and_linked(registry, item, targets) == (if targets.len() == 0 {
            match item {
                ParsedItemView::Trait(traitdef) => registry.with_trait(traitdef),
                ParsedItemView::EnumDispatch(enum_def) => registry.with_enum(enum_def),
                ParsedItemView::Module(_) => registry,
            }
        } else {
            match item {
                ParsedItemView::Trait(traitdef) => registry.with_trait(traitdef).with_link(
                    targets[0],
                    traitdef.ident,
                ),
                ParsedItemView::EnumDispatch(enum_def) => registry.with_enum(enum_def).with_link(
                    targets[0],
                    enum_def.ident,
                ),
                ParsedItemView::Module(_) => registry,
            }
        }),
{
    let name = declared_name(item);
    let stored = match item {
        ParsedItemView::Trait(traitdef) => registry.with_trait(traitdef),
        ParsedItemView::EnumDispatch(enum_def) => registry.with_enum(enum_def),
        ParsedItemView::Module(_) => registry,
    };
    if targets.len() == 1 {
        assert(targets.drop_last().len() == 0);
        assert(linked_to_all(stored, targets.drop_last(), name) == stored);
        assert(linked_to_all(stored, targets, name) == stored.with_link(targets.last(), name));
    }
}

/// The interfaces named by a single name.
proof fn lemma_traits_named_one(
    definitions: Map<Seq<char>, crate::cache::DefinitionView>,
    names: Seq<Seq<char>>,
)
    requires
        names.len() <= 1,
    ensures
        crate::cache::traits_named(definitions, names) == (if names.len() == 0 {
            Seq::<ItemTraitView>::empty()
        } else {
            match definitions.get(names[0]) {
                Some(crate::cache::DefinitionView::Trait(item)) => seq![item],
                _ => Seq::<ItemTraitView>::empty(),
            }
        }),
        crate::cache::enums_named(definitions, names) == (if names.len() == 0 {
            Seq::<EnumDispatchItemView>::empty()
        } else {
            match definitions.get(names[0]) {
                Some(crate::cache::DefinitionView::Enum(item)) => seq![item],
                _ => Seq::<EnumDispatchItemView>::empty(),
            }
        }),
{
    if names.len() == 1 {
        assert(names.drop_last().len() == 0);
        assert(crate::cache::traits_named(definitions, names.drop_last()) =~= Seq::empty());
        assert(crate::cache::enums_named(definitions, names.drop_last()) =~= Seq::empty());
        match definitions.get(names[0]) {
            Some(crate::cache::DefinitionView::Trait(item)) => {
                assert(crate::cache::traits_named(definitions, names) =~= seq![item]);
            },
            Some(crate::cache::DefinitionView::Enum(item)) => {
                assert(crate::cache::enums_named(definitions, names) =~= seq![item]);
            },
            None => {},
        }
    }
}

/// What is generated for no pairing, and for one.
proof fn lemma_generated_for_one(
    registry: RegistryView,
    pairings: Seq<(EnumDispatchItemView, ItemTraitView)>,
)
    requires
        pairings.len() <= 1,
    ensures
        generated_for(registry, pairings) == (if pairings.len() == 0 {
            Seq::<ExpansionView>::empty()
        } else {
            seq![
                expansion(
                    pairings[0].0,
                    pairings[0].1,
                    registry.has_conversions(pairings[0].0.ident, pairings[0].0.generics.arity()),
                ),
            ]
        }),
        pairings.len() == 0 ==> registry_after(registry, pairings) == registry,
{
    if pairings.len() == 1 {
        assert(pairings.drop_last().len() == 0);
        assert(generated_for(registry, pairings.drop_last()) =~= Seq::empty());
        assert(generated_for(registry, pairings) =~= seq![
            expansion(
                pairings[0].0,
                pairings[0].1,
                registry.has_conversions(pairings[0].0.ident, pairings[0].0.generics.arity()),
            ),
        ]);
    }
}

/// The order of declaration does not matter: whether the union is declared before the
/// interface or after it, and whichever of the two names the other, the pairing is
/// generated for once, by the later declaration, and what is generated is the same.
///
/// The two names are new to the registry here: nothing is stored under them, and nothing
/// waits for them.
pub proof fn lemma_declaration_order_is_irrelevant(
    registry: RegistryView,
    enum_def: EnumDispatchItemView,
    traitdef: ItemTraitView,
    named_by_union: bool,
)
    requires
        enum_def.ident != traitdef.ident,
        !registry.definitions.contains_key(enum_def.ident),
        !registry.definitions.contains_key(traitdef.ident),
        registry.pending(enum_def.ident).len() == 0,
        registry.pending(traitdef.ident).len() == 0,
    ensures
        ({
            let union = ParsedItemView::EnumDispatch(enum_def);
            let interface = ParsedItemView::Trait(traitdef);
            let of_union = if named_by_union {
                seq![traitdef.ident]
            } else {
                Seq::empty()
            };
            let of_interface = if named_by_union {
                Seq::empty()
            } else {
                seq![enum_def.ident]
            };
            let paired = seq![
                expansion(
                    enum_def,
                    traitdef,
                    registry.has_conversions(enum_def.ident, enum_def.generics.arity()),
                ),
            ];
            &&& generated_by_declaring(registry, union, of_union).len() == 0
            &&& generated_by_declaring(
                registry_after_declaring(registry, union, of_union),
                interface,
                of_interface,
            ) == paired
            &&& generated_by_declaring(registry, interface, of_interface).len() == 0
            &&& generated_by_declaring(
                registry_after_declaring(registry, interface, of_interface),
                union,
                of_union,
            ) == paired
        }),
{
    let union = ParsedItemView::EnumDispatch(enum_def);
    let interface = ParsedItemView::Trait(traitdef);
    let of_union: Seq<Seq<char>> = if named_by_union {
        seq![traitdef.ident]
    } else {
        Seq::empty()
    };
    let of_interface: Seq<Seq<char>> = if named_by_union {
        Seq::empty()
    } else {
        seq![enum_def.ident]
    };
    let u = enum_def.ident;
    let t = traitdef.ident;
    assert(registry.pending(u) =~= Seq::empty());
    assert(registry.pending(t) =~= Seq::empty());

    // The union first.
    lemma_declaring_simple(registry, union, of_union);
    let linked_a = stored_and_linked(registry, union, of_union);
    lemma_traits_named_one(linked_a.definitions, linked_a.pending(u));
    assert(linked_a.linked_traits(u) =~= Seq::empty());
    let pairs_a = completed_pairings(linked_a, union);
    assert(pairs_a =~= Seq::empty());
    lemma_generated_for_one(linked_a.forgetting(u), pairs_a);
    let after_a = registry_after_declaring(registry, union, of_union);
    assert(after_a == linked_a.forgetting(u));
    lemma_declaring_simple(after_a, interface, of_interface);
    let linked_a2 = stored_and_linked(after_a, interface, of_interface);
    assert(linked_a2.pending(t) =~= seq![u]);
    lemma_traits_named_one(linked_a2.definitions, linked_a2.pending(t));
    assert(linked_a2.linked_enums(t) =~= seq![enum_def]);
    let pairs_a2 = completed_pairings(linked_a2, interface);
    assert(pairs_a2 =~= seq![(enum_def, traitdef)]);
    lemma_generated_for_one(linked_a2.forgetting(t), pairs_a2);

    // The interface first.
    lemma_declaring_simple(registry, interface, of_interface);
    let linked_b = stored_and_linked(registry, interface, of_interface);
    lemma_traits_named_one(linked_b.definitions, linked_b.pending(t));
    assert(linked_b.linked_enums(t) =~= Seq::empty());
    let pairs_b = completed_pairings(linked_b, interface);
    assert(pairs_b =~= Seq::empty());
    lemma_generated_for_one(linked_b.forgetting(t), pairs_b);
    let after_b = registry_after_declaring(registry, interface, of_interface);
    assert(after_b == linked_b.forgetting(t));
    lemma_declaring_simple(after_b, union, of_union);
    let linked_b2 = stored_and_linked(after_b, union, of_union);
    assert(linked_b2.pending(u) =~= seq![t]);
    lemma_traits_named_one(linked_b2.definitions, linked_b2.pending(u));
    assert(linked_b2.linked_traits(u) =~= seq![traitdef]);
    let pairs_b2 = completed_pairings(linked_b2, union);
    assert(pairs_b2 =~= seq![(enum_def, traitdef)]);
    lemma_generated_for_one(linked_b2.forgetting(u), pairs_b2);
}

/// The conversions of a union are generated once: by the first pairing that is generated
/// for the union, whatever the interface. Every later pairing of the same union, with the
/// same interface or with another, generates none.
pub proof fn lemma_conversions_generated_once(
    registry: RegistryView,
    enum_def: EnumDispatchItemView,
    first: ItemTraitView,
    second: ItemTraitView,
)
    ensures
        ({
            let pairings = seq![(enum_def, first), (enum_def, second)];
            let generated = generated_for(registry, pairings);
            let name = enum_def.ident;
            let arity = enum_def.generics.arity();
            &&& generated.len() == 2
            &&& generated[0] == expansion(enum_def, first, registry.has_conversions(name, arity))
            &&& generated[1] == expansion(enum_def, second, true)
            &&& generated[1].from_impls.len() == 0
            &&& generated[1].try_into_impls.len() == 0
            &&& registry_after(registry, pairings).has_conversions(name, arity)
        }),
{
    let pairings = seq![(enum_def, first), (enum_def, second)];
    let one = pairings.drop_last();
    assert(one =~= seq![(enum_def, first)]);
    lemma_generated_for_one(registry, one);
    assert(one.drop_last().len() == 0);
    assert(registry_after(registry, one.drop_last()) == registry);
}

} // verus!
