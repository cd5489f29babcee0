//! The registry that pairs interfaces with unions whatever the order in which the two are
//! declared.
//!
//! A declaration is kept under its name from the moment it is seen. A union that names an
//! interface, or an interface that names a union, before the other side is known leaves a
//! link behind, which is taken up and removed when the other side arrives. The registry
//! also remembers for which unions the conversions were generated, so that they are
//! generated once.
//!
//! The registry is a plain value. Every operation takes it by reference and is complete
//! when it returns, so that a caller who shares it behind a lock only has to hold the lock
//! for the call.

use vstd::prelude::*;
use vstd::string::*;

use crate::enum_dispatch_item::{EnumDispatchItem, EnumDispatchItemView};
use crate::item_trait::{ItemTrait, ItemTraitView};
use crate::stored::{from_text, kept, to_text};
use crate::views::{clone_vec, lemma_deep_view_entries, lemma_deep_view_push, lemma_deep_view_take_all,
    lemma_deep_view_take_next};

verus! {

/// A declaration as the registry keeps it.
pub enum Definition {
    /// An interface.
    Trait(ItemTrait),
    /// A union.
    Enum(EnumDispatchItem),
}

/// The mathematical value of a [`Definition`].
pub enum DefinitionView {
    Trait(ItemTraitView),
    Enum(EnumDispatchItemView),
}

impl View for Definition {
    type V = DefinitionView;

    open spec fn view(&self) -> DefinitionView {
        match self {
            Definition::Trait(item) => DefinitionView::Trait(item@),
            Definition::Enum(item) => DefinitionView::Enum(item@),
        }
    }
}

impl DeepView for Definition {
    type V = DefinitionView;

    open spec fn deep_view(&self) -> DefinitionView {
        self@
    }
}

/// The mathematical value of a [`Registry`].
pub struct RegistryView {
    /// The declarations seen so far, by name. A name stands for one declaration at a time,
    /// an interface or a union.
    pub definitions: Map<Seq<char>, DefinitionView>,
    /// For each name, the names that wait for it, oldest first.
    pub deferred_links: Map<Seq<char>, Seq<Seq<char>>>,
    /// The unions, by name and generic arity, whose conversions were generated.
    pub conversion_impls: Set<(Seq<char>, nat)>,
}

/// The interfaces among the declarations that `names` stand for, in the order of `names`.
/// A name that stands for no interface is passed over.
pub open spec fn traits_named(
    definitions: Map<Seq<char>, DefinitionView>,
    names: Seq<Seq<char>>,
) -> Seq<ItemTraitView>
    decreases names.len(),
{
    if names.len() == 0 {
        Seq::empty()
    } else {
        let before = traits_named(definitions, names.drop_last());
        match definitions.get(names.last()) {
            Some(DefinitionView::Trait(item)) => before.push(item),
            _ => before,
        }
    }
}

/// The unions among the declarations that `names` stand for, in the order of `names`. A
/// name that stands for no union is passed over.
pub open spec fn enums_named(
    definitions: Map<Seq<char>, DefinitionView>,
    names: Seq<Seq<char>>,
) -> Seq<EnumDispatchItemView>
    decreases names.len(),
{
    if names.len() == 0 {
        Seq::empty()
    } else {
        let before = enums_named(definitions, names.drop_last());
        match definitions.get(names.last()) {
            Some(DefinitionView::Enum(item)) => before.push(item),
            _ => before,
        }
    }
}

impl RegistryView {
    /// The registry in which nothing was seen yet.
    pub open spec fn empty() -> RegistryView {
        RegistryView {
            definitions: Map::empty(),
            deferred_links: Map::empty(),
            conversion_impls: Set::empty(),
        }
    }

    /// The registry after the declaration of an interface: it now stands under its name,
    /// in place of whatever stood there.
    pub open spec fn with_trait(self, item: ItemTraitView) -> RegistryView {
        RegistryView {
            definitions: self.definitions.insert(item.ident, DefinitionView::Trait(item)),
            ..self
        }
    }

    /// The registry after the declaration of a union: it now stands under its name, in
    /// place of whatever stood there.
    pub open spec fn with_enum(self, item: EnumDispatchItemView) -> RegistryView {
        RegistryView {
            definitions: self.definitions.insert(item.ident, DefinitionView::Enum(item)),
            ..self
        }
    }

    /// The names that wait for `name`, oldest first.
    pub open spec fn pending(self, name: Seq<char>) -> Seq<Seq<char>> {
        if self.deferred_links.contains_key(name) {
            self.deferred_links[name]
        } else {
            Seq::empty()
        }
    }

    /// The registry in which `other` waits for `name` too, behind those that wait already.
    pub open spec fn with_pending(self, name: Seq<char>, other: Seq<char>) -> RegistryView {
        RegistryView {
            deferred_links: self.deferred_links.insert(name, self.pending(name).push(other)),
            ..self
        }
    }

    /// The registry after a link between two names: each now waits for the other.
    pub open spec fn with_link(self, needed: Seq<char>, cached: Seq<char>) -> RegistryView {
        self.with_pending(needed, cached).with_pending(cached, needed)
    }

    /// The registry in which nothing waits for `name` any more.
    pub open spec fn forgetting(self, name: Seq<char>) -> RegistryView {
        RegistryView { deferred_links: self.deferred_links.remove(name), ..self }
    }

    /// The interfaces that wait for the union `name` and are declared, oldest link first.
    pub open spec fn linked_traits(self, name: Seq<char>) -> Seq<ItemTraitView> {
        traits_named(self.definitions, self.pending(name))
    }

    /// The unions that wait for the interface `name` and are declared, oldest link first.
    pub open spec fn linked_enums(self, name: Seq<char>) -> Seq<EnumDispatchItemView> {
        enums_named(self.definitions, self.pending(name))
    }

    /// Whether the conversions of the union `name` of this arity were generated.
    pub open spec fn has_conversions(self, name: Seq<char>, arity: nat) -> bool {
        self.conversion_impls.contains((name, arity))
    }

    /// The registry that remembers that the conversions of the union `name` of this arity
    /// were generated.
    pub open spec fn with_conversions(self, name: Seq<char>, arity: nat) -> RegistryView {
        RegistryView { conversion_impls: self.conversion_impls.insert((name, arity)), ..self }
    }
}

impl RegistryView {
    /// Whether `later` remembers every conversion that `self` remembers.
    pub open spec fn remembered_by(self, later: RegistryView) -> bool {
        self.conversion_impls.subset_of(later.conversion_impls)
    }
}

/// What the registry remembers of generated conversions is never taken back: whichever
/// operation follows, a union whose conversions were generated stays so.
pub proof fn lemma_conversions_stay_remembered(
    registry: RegistryView,
    interface: ItemTraitView,
    union: EnumDispatchItemView,
    name: Seq<char>,
    other: Seq<char>,
    arity: nat,
)
    ensures
        registry.remembered_by(registry.with_trait(interface)),
        registry.remembered_by(registry.with_enum(union)),
        registry.remembered_by(registry.with_link(name, other)),
        registry.remembered_by(registry.forgetting(name)),
        registry.remembered_by(registry.with_conversions(name, arity)),
        registry.with_conversions(name, arity).has_conversions(name, arity),
{
}

/// A link fires once: when the links that wait for a name were taken up, none waits for
/// it any more, so that taking them up again gives nothing. The links that wait for other
/// names are untouched.
pub proof fn lemma_links_fire_once(registry: RegistryView, name: Seq<char>, other: Seq<char>)
    ensures
        registry.forgetting(name).pending(name) == Seq::<Seq<char>>::empty(),
        registry.forgetting(name).linked_traits(name) == Seq::<ItemTraitView>::empty(),
        registry.forgetting(name).linked_enums(name) == Seq::<EnumDispatchItemView>::empty(),
        other != name ==> registry.forgetting(name).pending(other) == registry.pending(other),
{
}

/// A link is kept in both directions, behind the links that wait already: after a link
/// between two different names, each is the last to wait for the other.
pub proof fn lemma_link_waits_both_ways(registry: RegistryView, needed: Seq<char>, cached: Seq<char>)
    requires
        needed != cached,
    ensures
        registry.with_link(needed, cached).pending(needed) == registry.pending(needed).push(cached),
        registry.with_link(needed, cached).pending(cached) == registry.pending(cached).push(needed),
{
}

/// What stands under `key` in a list of named entries, in which a later entry of the same
/// name replaces an earlier one.
spec fn lookup<V>(entries: Seq<(Seq<char>, V)>, key: Seq<char>) -> Option<V>
    decreases entries.len(),
{
    if entries.len() == 0 {
        None
    } else if entries.last().0 == key {
        Some(entries.last().1)
    } else {
        lookup(entries.drop_last(), key)
    }
}

/// A list of named entries as a map.
spec fn as_map<V>(entries: Seq<(Seq<char>, V)>) -> Map<Seq<char>, V> {
    Map::new(
        |key: Seq<char>| lookup(entries, key) is Some,
        |key: Seq<char>| lookup(entries, key)->Some_0,
    )
}

/// The declarations that a map of texts keeps: under each name the declaration that the
/// text under the name keeps, and nothing under a name whose text keeps none.
spec fn kept_definitions(texts: Map<Seq<char>, Seq<char>>) -> Map<Seq<char>, DefinitionView> {
    Map::new(
        |name: Seq<char>| texts.contains_key(name) && kept::<Definition>(texts[name]) is Some,
        |name: Seq<char>| kept::<Definition>(texts[name])->Some_0,
    )
}

/// The pairs of name and arity in a list of markers.
spec fn as_set(markers: Seq<(Seq<char>, usize)>) -> Set<(Seq<char>, nat)> {
    Set::new(
        |marker: (Seq<char>, nat)|
            exists|i: int|
                0 <= i < markers.len() && (#[trigger] markers[i]).0 == marker.0 && markers[i].1
                    == marker.1,
    )
}

proof fn lemma_lookup_push<V>(entries: Seq<(Seq<char>, V)>, name: Seq<char>, value: V)
    ensures
        as_map(entries.push((name, value))) == as_map(entries).insert(name, value),
{
    let pushed = entries.push((name, value));
    assert(pushed.drop_last() =~= entries);
    assert(as_map(pushed) =~= as_map(entries).insert(name, value));
}

proof fn lemma_lookup_last<V>(entries: Seq<(Seq<char>, V)>, key: Seq<char>, at: int)
    requires
        0 <= at < entries.len(),
        entries[at].0 == key,
        forall|j: int| at < j < entries.len() ==> (#[trigger] entries[j]).0 != key,
    ensures
        lookup(entries, key) == Some(entries[at].1),
    decreases entries.len(),
{
    if at < entries.len() - 1 {
        lemma_lookup_last(entries.drop_last(), key, at);
    }
}

proof fn lemma_lookup_none<V>(entries: Seq<(Seq<char>, V)>, key: Seq<char>)
    requires
        forall|j: int| 0 <= j < entries.len() ==> (#[trigger] entries[j]).0 != key,
    ensures
        lookup(entries, key) is None,
    decreases entries.len(),
{
    if entries.len() > 0 {
        lemma_lookup_none(entries.drop_last(), key);
    }
}

proof fn lemma_lookup_update<V>(
    entries: Seq<(Seq<char>, V)>,
    name: Seq<char>,
    at: int,
    value: V,
    key: Seq<char>,
)
    requires
        0 <= at < entries.len(),
        entries[at].0 == name,
        forall|j: int| at < j < entries.len() ==> (#[trigger] entries[j]).0 != name,
    ensures
        lookup(entries.update(at, (name, value)), key) == if key == name {
            Some(value)
        } else {
            lookup(entries, key)
        },
    decreases entries.len(),
{
    let updated = entries.update(at, (name, value));
    if at < entries.len() - 1 {
        assert(updated.drop_last() =~= entries.drop_last().update(at, (name, value)));
        lemma_lookup_update(entries.drop_last(), name, at, value, key);
    } else {
        assert(updated.drop_last() =~= entries.drop_last());
    }
}

proof fn lemma_lookup_remove<V>(entries: Seq<(Seq<char>, V)>, at: int, key: Seq<char>)
    requires
        0 <= at < entries.len(),
        entries[at].0 != key,
    ensures
        lookup(entries.remove(at), key) == lookup(entries, key),
    decreases entries.len(),
{
    let removed = entries.remove(at);
    if at < entries.len() - 1 {
        assert(removed.drop_last() =~= entries.drop_last().remove(at));
        assert(removed.last() == entries.last());
        lemma_lookup_remove(entries.drop_last(), at, key);
    } else {
        assert(removed =~= entries.drop_last());
    }
}

/// Where the entry stands that a list of named entries holds under `key`.
fn find_last<V>(entries: &Vec<(String, V)>, key: &String) -> (r: Option<usize>)
    ensures
        match r {
            Some(at) => {
                &&& at < entries.len()
                &&& entries[at as int].0@ == key@
                &&& forall|j: int| at < j < entries.len() ==> (#[trigger] entries[j]).0@ != key@
            },
            None => forall|j: int| 0 <= j < entries.len() ==> (#[trigger] entries[j]).0@ != key@,
        },
{
    let mut i: usize = entries.len();
    while i > 0
        invariant
            i <= entries.len(),
            forall|j: int| i <= j < entries.len() ==> (#[trigger] entries[j]).0@ != key@,
        decreases i,
    {
        i -= 1;
        if entries[i].0 == *key {
            return Some(i);
        }
    }
    None
}

/// The registry of declarations, of links between names, and of unions whose conversions
/// were generated.
pub struct Registry {
    /// The declarations by name, each as the text that keeps it.
    definitions: Vec<(String, String)>,
    deferred_links: Vec<(String, Vec<String>)>,
    conversion_impls: Vec<(String, usize)>,
}

impl View for Registry {
    type V = RegistryView;

    closed spec fn view(&self) -> RegistryView {
        RegistryView {
            definitions: kept_definitions(as_map(self.definitions.deep_view())),
            deferred_links: as_map(self.deferred_links.deep_view()),
            conversion_impls: as_set(self.conversion_impls.deep_view()),
        }
    }
}

impl Registry {
    /// A registry in which nothing was seen yet.
    pub fn new() -> (r: Registry)
        ensures
            r@ == RegistryView::empty(),
    {
        let registry = Registry {
            definitions: Vec::new(),
            deferred_links: Vec::new(),
            conversion_impls: Vec::new(),
        };
        proof {
            lemma_deep_view_entries(registry.definitions);
            lemma_deep_view_entries(registry.deferred_links);
            lemma_deep_view_entries(registry.conversion_impls);
            assert(registry@.definitions =~= Map::empty());
            assert(registry@.deferred_links =~= Map::empty());
            assert(registry@.conversion_impls =~= Set::empty());
        }
        registry
    }

    /// Puts `definition` under `name`, in place of whatever stood there.
    fn store(&mut self, name: String, definition: Definition)
        ensures
            final(self)@ == (RegistryView {
                definitions: old(self)@.definitions.insert(name@, definition@),
                ..old(self)@
            }),
    {
        let ghost before = self.definitions.deep_view();
        let text = to_text(&definition);
        proof {
            lemma_deep_view_entries(self.definitions);
        }
        match find_last(&self.definitions, &name) {
            Some(at) => {
                self.definitions.set(at, (name, text));
                proof {
                    lemma_deep_view_entries(self.definitions);
                    assert(self.definitions.deep_view() =~= before.update(
                        at as int,
                        (name@, text@),
                    ));
                    assert forall|key: Seq<char>|
                        lookup(self.definitions.deep_view(), key) == (if key == name@ {
                            Some(text@)
                        } else {
                            lookup(before, key)
                        }) by {
                        lemma_lookup_update(before, name@, at as int, text@, key);
                    }
                    assert(as_map(self.definitions.deep_view()) =~= as_map(before).insert(
                        name@,
                        text@,
                    ));
                }
            },
            None => {
                self.definitions.push((name, text));
                proof {
                    lemma_deep_view_entries(self.definitions);
                    assert(self.definitions.deep_view() =~= before.push((name@, text@)));
                    lemma_lookup_push(before, name@, text@);
                }
            },
        }
        proof {
            assert(kept_definitions(as_map(self.definitions.deep_view())) =~= kept_definitions(
                as_map(before),
            ).insert(name@, definition@));
        }
    }

    /// Lets `other` wait for `name`, behind those that wait already.
    fn wait_for(&mut self, name: &String, other: &String)
        ensures
            final(self)@ == old(self)@.with_pending(name@, other@),
    {
        let ghost before = self.deferred_links.deep_view();
        proof {
            lemma_deep_view_entries(self.deferred_links);
        }
        match find_last(&self.deferred_links, name) {
            Some(at) => {
                let mut waiting = clone_vec(&self.deferred_links[at].1);
                let ghost already = waiting;
                let one = other.clone();
                waiting.push(one);
                proof {
                    lemma_deep_view_push(already, waiting, one);
                    lemma_lookup_last(before, name@, at as int);
                }
                self.deferred_links.set(at, (name.clone(), waiting));
                proof {
                    lemma_deep_view_entries(self.deferred_links);
                    assert(self.deferred_links.deep_view() =~= before.update(
                        at as int,
                        (name@, waiting.deep_view()),
                    ));
                    assert forall|key: Seq<char>|
                        lookup(self.deferred_links.deep_view(), key) == (if key == name@ {
                            Some(waiting.deep_view())
                        } else {
                            lookup(before, key)
                        }) by {
                        lemma_lookup_update(before, name@, at as int, waiting.deep_view(), key);
                    }
                    assert(as_map(self.deferred_links.deep_view()) =~= as_map(before).insert(
                        name@,
                        waiting.deep_view(),
                    ));
                }
            },
            None => {
                let mut waiting: Vec<String> = Vec::new();
                let ghost already = waiting;
                let one = other.clone();
                waiting.push(one);
                proof {
                    lemma_deep_view_entries(already);
                    lemma_deep_view_push(already, waiting, one);
                    lemma_lookup_none(before, name@);
                    assert(waiting.deep_view() =~= Seq::<Seq<char>>::empty().push(other@));
                }
                self.deferred_links.push((name.clone(), waiting));
                proof {
                    lemma_deep_view_entries(self.deferred_links);
                    assert(self.deferred_links.deep_view() =~= before.push(
                        (name@, waiting.deep_view()),
                    ));
                    lemma_lookup_push(before, name@, waiting.deep_view());
                }
            },
        }
    }

    /// Takes out the names that wait for `name`: they are returned, oldest first, and wait
    /// no longer.
    fn take_links(&mut self, name: &String) -> (r: Vec<String>)
        ensures
            final(self)@ == old(self)@.forgetting(name@),
            r.deep_view() == old(self)@.pending(name@),
    {
        let ghost before = self.deferred_links.deep_view();
        let mut taken: Vec<String> = Vec::new();
        let mut first = true;
        let mut found = find_last(&self.deferred_links, name);
        proof {
            lemma_deep_view_entries(taken);
            assert(taken.deep_view() =~= Seq::<Seq<char>>::empty());
        }
        while found.is_some()
            invariant
                self.definitions == old(self).definitions,
                self.conversion_impls == old(self).conversion_impls,
                match found {
                    Some(at) => {
                        &&& at < self.deferred_links.len()
                        &&& self.deferred_links[at as int].0@ == name@
                        &&& forall|j: int|
                            at < j < self.deferred_links.len() ==> (
                            #[trigger] self.deferred_links[j]).0@ != name@
                    },
                    None => forall|j: int|
                        0 <= j < self.deferred_links.len() ==> (
                        #[trigger] self.deferred_links[j]).0@ != name@,
                },
                forall|key: Seq<char>|
                    key != name@ ==> lookup(self.deferred_links.deep_view(), key) == lookup(
                        before,
                        key,
                    ),
                first ==> taken.deep_view() == Seq::<Seq<char>>::empty() && lookup(
                    self.deferred_links.deep_view(),
                    name@,
                ) == lookup(before, name@),
                !first ==> lookup(before, name@) == Some(taken.deep_view()),
            decreases self.deferred_links.len(),
        {
            let at = found.unwrap();
            let ghost current = self.deferred_links.deep_view();
            proof {
                lemma_deep_view_entries(self.deferred_links);
                lemma_lookup_last(current, name@, at as int);
            }
            let entry = self.deferred_links.remove(at);
            proof {
                lemma_deep_view_entries(self.deferred_links);
                assert(self.deferred_links.deep_view() =~= current.remove(at as int));
                assert forall|key: Seq<char>| key != name@ implies lookup(
                    self.deferred_links.deep_view(),
                    key,
                ) == lookup(before, key) by {
                    lemma_lookup_remove(current, at as int, key);
                }
            }
            if first {
                taken = entry.1;
                first = false;
            }
            found = find_last(&self.deferred_links, name);
        }
        proof {
            lemma_deep_view_entries(self.deferred_links);
            lemma_lookup_none(self.deferred_links.deep_view(), name@);
            assert(as_map(self.deferred_links.deep_view()) =~= as_map(before).remove(name@));
        }
        taken
    }
}

/// Stores the declaration of an interface for later reference. A declaration stored
/// before under the same name is replaced.
pub fn cache_trait(registry: &mut Registry, item: ItemTrait)
    ensures
        final(registry)@ == old(registry)@.with_trait(item@),
{
    let identname = item.ident.clone();
    registry.store(identname, Definition::Trait(item));
}

/// Stores the declaration of a union for later reference. A declaration stored before
/// under the same name is replaced.
pub fn cache_enum_dispatch(registry: &mut Registry, item: EnumDispatchItem)
    ensures
        final(registry)@ == old(registry)@.with_enum(item@),
{
    let identname = item.ident.clone();
    registry.store(identname, Definition::Enum(item));
}

/// Records that the conversions of the union `item` of the given generic arity were
/// generated. The record is never taken back.
pub fn cache_enum_conversion_impls_defined(registry: &mut Registry, item: String, arity: usize)
    ensures
        final(registry)@ == old(registry)@.with_conversions(item@, arity as nat),
{
    let ghost before = registry.conversion_impls.deep_view();
    registry.conversion_impls.push((item, arity));
    proof {
        lemma_deep_view_entries(registry.conversion_impls);
        let after = registry.conversion_impls.deep_view();
        assert(after =~= before.push((item@, arity)));
        assert forall|marker: (Seq<char>, nat)|
            as_set(after).contains(marker) <==> as_set(before).insert(
                (item@, arity as nat),
            ).contains(marker) by {
            if as_set(after).contains(marker) {
                let i = choose|i: int|
                    0 <= i < after.len() && (#[trigger] after[i]).0 == marker.0 && after[i].1
                        == marker.1;
                if i < before.len() {
                    assert(before[i] == after[i]);
                }
            }
            if as_set(before).contains(marker) {
                let i = choose|i: int|
                    0 <= i < before.len() && (#[trigger] before[i]).0 == marker.0 && before[i].1
                        == marker.1;
                assert(after[i] == before[i]);
            }
            if marker == (item@, arity as nat) {
                assert(after[before.len() as int] == (item@, arity));
            }
        }
        assert(as_set(after) =~= as_set(before).insert((item@, arity as nat)));
    }
}

/// Records a link between two names, to be taken up once the declaration that is still
/// missing is stored. Each of the two names then waits for the other. Nothing is merged:
/// a link that is recorded twice waits twice.
pub fn defer_link(registry: &mut Registry, needed: &String, cached: &String)
    ensures
        final(registry)@ == old(registry)@.with_link(needed@, cached@),
{
    registry.wait_for(needed, cached);
    registry.wait_for(cached, needed);
}

/// Returns the interfaces that were linked to the union `defname` and are stored, in the
/// order in which they were linked, and removes the links. A linked name under which no
/// interface is stored is passed over.
pub fn fulfilled_by_enum(registry: &mut Registry, defname: &String) -> (r: Vec<ItemTrait>)
    ensures
        final(registry)@ == old(registry)@.forgetting(defname@),
        r.deep_view() == old(registry)@.linked_traits(defname@),
{
    let idents = registry.take_links(defname);
    let ghost names = idents.deep_view();
    let ghost stored = registry@.definitions;
    let mut fulfilled: Vec<ItemTrait> = Vec::new();
    let mut i: usize = 0;
    proof {
        lemma_deep_view_entries(idents);
        lemma_deep_view_entries(fulfilled);
        assert(fulfilled.deep_view() =~= traits_named(stored, names.take(0)));
    }
    while i < idents.len()
        invariant
            i <= idents.len(),
            names == idents.deep_view(),
            stored == kept_definitions(as_map(registry.definitions.deep_view())),
            fulfilled.deep_view() == traits_named(stored, names.take(i as int)),
        decreases idents.len() - i,
    {
        let ghost before = fulfilled;
        proof {
            lemma_deep_view_take_next(idents, i as int);
            lemma_deep_view_entries(registry.definitions);
        }
        match find_last(&registry.definitions, &idents[i]) {
            Some(at) => {
                proof {
                    lemma_lookup_last(registry.definitions.deep_view(), idents[i as int]@, at as int);
                }
                match from_text::<Definition>(registry.definitions[at].1.as_str()) {
                    Some(Definition::Trait(one)) => {
                        fulfilled.push(one);
                        proof {
                            lemma_deep_view_push(before, fulfilled, one);
                        }
                    },
                    _ => {},
                }
            },
            None => {
                proof {
                    lemma_lookup_none(registry.definitions.deep_view(), idents[i as int]@);
                }
            },
        }
        i += 1;
    }
    proof {
        lemma_deep_view_take_all(idents);
    }
    fulfilled
}

/// Returns the unions that were linked to the interface `defname` and are stored, in the
/// order in which they were linked, and removes the links. A linked name under which no
/// union is stored is passed over.
pub fn fulfilled_by_trait(registry: &mut Registry, defname: &String) -> (r: Vec<EnumDispatchItem>)
    ensures
        final(registry)@ == old(registry)@.forgetting(defname@),
        r.deep_view() == old(registry)@.linked_enums(defname@),
{
    let idents = registry.take_links(defname);
    let ghost names = idents.deep_view();
    let ghost stored = registry@.definitions;
    let mut fulfilled: Vec<EnumDispatchItem> = Vec::new();
    let mut i: usize = 0;
    proof {
        lemma_deep_view_entries(idents);
        lemma_deep_view_entries(fulfilled);
        assert(fulfilled.deep_view() =~= enums_named(stored, names.take(0)));
    }
    while i < idents.len()
        invariant
            i <= idents.len(),
            names == idents.deep_view(),
            stored == kept_definitions(as_map(registry.definitions.deep_view())),
            fulfilled.deep_view() == enums_named(stored, names.take(i as int)),
        decreases idents.len() - i,
    {
        let ghost before = fulfilled;
        proof {
            lemma_deep_view_take_next(idents, i as int);
            lemma_deep_view_entries(registry.definitions);
        }
        match find_last(&registry.definitions, &idents[i]) {
            Some(at) => {
                proof {
                    lemma_lookup_last(registry.definitions.deep_view(), idents[i as int]@, at as int);
                }
                match from_text::<Definition>(registry.definitions[at].1.as_str()) {
                    Some(Definition::Enum(one)) => {
                        fulfilled.push(one);
                        proof {
                            lemma_deep_view_push(before, fulfilled, one);
                        }
                    },
                    _ => {},
                }
            },
            None => {
                proof {
                    lemma_lookup_none(registry.definitions.deep_view(), idents[i as int]@);
                }
            },
        }
        i += 1;
    }
    proof {
        lemma_deep_view_take_all(idents);
    }
    fulfilled
}

/// Whether the conversions of the union `item` of the given generic arity were generated.
pub fn conversion_impls_def_by_enum(registry: &Registry, item: &String, arity: usize) -> (r: bool)
    ensures
        r == registry@.has_conversions(item@, arity as nat),
{
    let ghost markers = registry.conversion_impls.deep_view();
    let mut i: usize = 0;
    proof {
        lemma_deep_view_entries(registry.conversion_impls);
    }
    while i < registry.conversion_impls.len()
        invariant
            i <= registry.conversion_impls.len(),
            markers == registry.conversion_impls.deep_view(),
            markers.len() == registry.conversion_impls.len(),
            forall|j: int|
                0 <= j < i ==> !((#[trigger] markers[j]).0 == item@ && markers[j].1 == arity),
        decreases registry.conversion_impls.len() - i,
    {
        proof {
            lemma_deep_view_entries(registry.conversion_impls);
        }
        if registry.conversion_impls[i].1 == arity && registry.conversion_impls[i].0 == *item {
            assert(markers[i as int].0 == item@ && markers[i as int].1 == arity as nat);
            return true;
        }
        i += 1;
    }
    false
}

/// Drops the links that wait for `defname`, without looking at them.
pub fn remove_entry(registry: &mut Registry, defname: &String)
    ensures
        final(registry)@ == old(registry)@.forgetting(defname@),
{
    let _ = registry.take_links(defname);
}

} // verus!
