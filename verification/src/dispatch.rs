//! What the generated code does when it runs, as far as that can be read off its arms: which
//! arm a union value takes, which call that arm makes, and what a conversion yields.
//!
//! A union value is known here by the tag of the variant it holds. The build in which the
//! code runs is known by the conditional-compilation markers that hold in it: code that
//! carries a marker that does not hold is not part of the build.

use vstd::prelude::*;
use vstd::string::*;

use crate::attribute::{cfg_attributes, Attribute, AttributeView};
use crate::enum_dispatch_variant::EnumDispatchVariantView;
use crate::enum_dispatch_item::EnumDispatchItemView;
use crate::expansion::{
    argument_names, expansion, forwarded, forwarding_method, from_impl, from_impls, impl_target,
    lemma_forwarded_items_are_implemented, match_arm, match_expr, mismatch_arm, mismatch_arms,
    mismatch_message, try_into_impl, try_into_impls, unresolved_items, FIELDNAME,
};
use crate::generics::GenericsView;
use crate::impl_blocks::{
    FromImplView, ImplItemMethod, ImplItemMethodView, MatchArmView, MismatchArmView, TryIntoImpl,
    TryIntoImplView,
};
use crate::item_trait::{ItemTraitView, SignatureView, TraitItemMethodView};
use crate::views::lemma_deep_view_entries;

verus! {

/// Whether code that carries the markers `attrs` is part of a build in which exactly the
/// markers that `enabled` accepts hold.
pub open spec fn present(attrs: Seq<AttributeView>, enabled: spec_fn(AttributeView) -> bool) -> bool {
    forall|i: int| 0 <= i < attrs.len() ==> enabled(#[trigger] attrs[i])
}

/// Whether a variant is part of the build.
pub open spec fn variant_present(
    variant: EnumDispatchVariantView,
    enabled: spec_fn(AttributeView) -> bool,
) -> bool {
    present(cfg_attributes(variant.attrs), enabled)
}

/// Whether the variant at `at` is part of the build and the only variant of its name there.
pub open spec fn variant_selectable(
    variants: Seq<EnumDispatchVariantView>,
    at: int,
    enabled: spec_fn(AttributeView) -> bool,
) -> bool {
    &&& 0 <= at < variants.len()
    &&& variant_present(variants[at], enabled)
    &&& forall|j: int|
        0 <= j < variants.len() && j != at && variant_present(#[trigger] variants[j], enabled)
            ==> variants[j].ident != variants[at].ident
}

/// What an arm matches: a variant, under the arm's markers.
pub struct ArmPattern {
    pub attrs: Seq<AttributeView>,
    pub variant_name: Seq<char>,
}

/// Whether an arm with this pattern is part of the build and matches a value that holds
/// the variant `tag`.
pub open spec fn pattern_takes(
    pattern: ArmPattern,
    tag: Seq<char>,
    enabled: spec_fn(AttributeView) -> bool,
) -> bool {
    pattern.variant_name == tag && present(pattern.attrs, enabled)
}

/// The position of the arm that a value holding the variant `tag` takes: the first arm, in
/// the order in which they are written, that is part of the build and matches.
pub open spec fn taken(
    patterns: Seq<ArmPattern>,
    tag: Seq<char>,
    enabled: spec_fn(AttributeView) -> bool,
) -> Option<int>
    decreases patterns.len(),
{
    if patterns.len() == 0 {
        None
    } else if pattern_takes(patterns[0], tag, enabled) {
        Some(0)
    } else {
        match taken(patterns.drop_first(), tag, enabled) {
            Some(at) => Some(at + 1),
            None => None,
        }
    }
}

/// The first arm that takes a value is taken.
pub proof fn lemma_taken_first(
    patterns: Seq<ArmPattern>,
    tag: Seq<char>,
    enabled: spec_fn(AttributeView) -> bool,
    at: int,
)
    requires
        0 <= at < patterns.len(),
        pattern_takes(patterns[at], tag, enabled),
        forall|j: int| 0 <= j < at ==> !pattern_takes(#[trigger] patterns[j], tag, enabled),
    ensures
        taken(patterns, tag, enabled) == Some(at),
    decreases patterns.len(),
{
    if at > 0 {
        let rest = patterns.drop_first();
        assert forall|j: int| 0 <= j < at - 1 implies !pattern_takes(
            #[trigger] rest[j],
            tag,
            enabled,
        ) by {
            assert(rest[j] == patterns[j + 1]);
        }
        assert(rest[at - 1] == patterns[at]);
        lemma_taken_first(rest, tag, enabled, at - 1);
    }
}

/// Where no arm takes a value, none is taken.
pub proof fn lemma_taken_none(
    patterns: Seq<ArmPattern>,
    tag: Seq<char>,
    enabled: spec_fn(AttributeView) -> bool,
)
    requires
        forall|j: int| 0 <= j < patterns.len() ==> !pattern_takes(#[trigger] patterns[j], tag, enabled),
    ensures
        taken(patterns, tag, enabled) is None,
    decreases patterns.len(),
{
    if patterns.len() > 0 {
        let rest = patterns.drop_first();
        assert forall|j: int| 0 <= j < rest.len() implies !pattern_takes(
            #[trigger] rest[j],
            tag,
            enabled,
        ) by {
            assert(rest[j] == patterns[j + 1]);
        }
        lemma_taken_none(rest, tag, enabled);
    }
}

/// A union value: the tag of the variant it holds, and the value that the variant wraps.
pub struct UnionValue<V> {
    pub tag: Seq<char>,
    pub inner: V,
}

/// A call of a method of an interface on a value.
pub struct Invocation<V> {
    pub trait_name: Seq<char>,
    pub method_name: Seq<char>,
    /// The value on which the method is called.
    pub receiver: V,
    /// The parameters that are handed on, by name, in the order in which they are handed.
    pub arguments: Seq<Seq<char>>,
}

/// The patterns of the arms of a forwarding method.
pub open spec fn arm_patterns(arms: Seq<MatchArmView>) -> Seq<ArmPattern> {
    arms.map_values(
        |arm: MatchArmView| ArmPattern { attrs: arm.attrs, variant_name: arm.variant_name },
    )
}

/// The call that an arm makes when its variant wraps `inner`. `deref` is what one
/// dereference of a wrapped value gives.
pub open spec fn arm_invokes<V>(arm: MatchArmView, inner: V, deref: spec_fn(V) -> V) -> Invocation<V> {
    Invocation {
        trait_name: arm.body.trait_name,
        method_name: arm.body.method_name,
        receiver: if arm.deref {
            deref(inner)
        } else {
            inner
        },
        arguments: arm.body.args.skip(1),
    }
}

/// The call that a forwarding method makes on a union value; `None` where no arm takes the
/// value.
pub open spec fn method_on_union<V>(
    method: ImplItemMethodView,
    value: UnionValue<V>,
    enabled: spec_fn(AttributeView) -> bool,
    deref: spec_fn(V) -> V,
) -> Option<Invocation<V>> {
    match taken(arm_patterns(method.body.arms), value.tag, enabled) {
        Some(at) => Some(arm_invokes(method.body.arms[at], value.inner, deref)),
        None => None,
    }
}

/// The call of the interface's method of signature `sig` on `receiver` itself, with the
/// method's parameters handed on as they stand.
pub open spec fn method_on_wrapped<V>(
    trait_name: Seq<char>,
    sig: SignatureView,
    receiver: V,
) -> Invocation<V> {
    Invocation {
        trait_name,
        method_name: sig.ident,
        receiver,
        arguments: argument_names(sig.inputs),
    }
}

/// Forwarding is correct: called on a union value that holds a variant of the build, a
/// forwarding method makes the very call that the interface's method is on the wrapped
/// value, with the same parameters in the same order. Where the variant asks for it, the
/// wrapped value is dereferenced once on the way, so that the call reaches the type behind
/// the indirection.
pub proof fn lemma_forwarding_calls_wrapped_value<V>(
    method: TraitItemMethodView,
    trait_generics: GenericsView,
    trait_name: Seq<char>,
    enum_name: Seq<char>,
    variants: Seq<EnumDispatchVariantView>,
    at: int,
    inner: V,
    enabled: spec_fn(AttributeView) -> bool,
    deref: spec_fn(V) -> V,
)
    requires
        variant_selectable(variants, at, enabled),
    ensures
        method_on_union(
            forwarding_method(method, trait_generics, trait_name, enum_name, variants),
            UnionValue { tag: variants[at].ident, inner },
            enabled,
            deref,
        ) == Some(
            method_on_wrapped(
                trait_name,
                method.sig,
                if variants[at].deref {
                    deref(inner)
                } else {
                    inner
                },
            ),
        ),
{
    let generated = forwarding_method(method, trait_generics, trait_name, enum_name, variants);
    let arms = generated.body.arms;
    let patterns = arm_patterns(arms);
    let tag = variants[at].ident;
    assert forall|j: int| 0 <= j < at implies !pattern_takes(#[trigger] patterns[j], tag, enabled) by {
        assert(patterns[j].attrs == cfg_attributes(variants[j].attrs));
    }
    lemma_taken_first(patterns, tag, enabled, at);
    let arm = arms[at];
    assert(arm == match_arm(method.sig, trait_generics, trait_name, enum_name, variants[at]));
    assert(arm.body.args.skip(1) =~= argument_names(method.sig.inputs));
}

/// What is generated for a union and an interface holds, for every method of the
/// interface that can be forwarded, a forwarding method that is correct: on a union value
/// that holds a variant of the build it makes the call that the interface's method is on
/// the wrapped value.
pub proof fn lemma_every_forwarded_method_is_correct<V>(
    enum_def: EnumDispatchItemView,
    traitdef: ItemTraitView,
    already: bool,
    item: int,
    at: int,
    inner: V,
    enabled: spec_fn(AttributeView) -> bool,
    deref: spec_fn(V) -> V,
)
    requires
        0 <= item < traitdef.items.len(),
        forwarded(traitdef.items[item], unresolved_items(traitdef.items)),
        variant_selectable(enum_def.variants, at, enabled),
    ensures
        exists|generated: ImplItemMethodView|
            {
                &&& #[trigger] expansion(enum_def, traitdef, already).trait_impl.methods.contains(
                    generated,
                )
                &&& generated.sig == traitdef.items[item]->Method_0.sig
                &&& method_on_union(
                    generated,
                    UnionValue { tag: enum_def.variants[at].ident, inner },
                    enabled,
                    deref,
                ) == Some(
                    method_on_wrapped(
                        traitdef.ident,
                        generated.sig,
                        if enum_def.variants[at].deref {
                            deref(inner)
                        } else {
                            inner
                        },
                    ),
                )
            },
{
    let method = traitdef.items[item]->Method_0;
    let generated = forwarding_method(
        method,
        traitdef.generics,
        traitdef.ident,
        enum_def.ident,
        enum_def.variants,
    );
    lemma_forwarded_items_are_implemented(
        traitdef.items,
        unresolved_items(traitdef.items),
        traitdef.generics,
        traitdef.ident,
        enum_def.ident,
        enum_def.variants,
        item,
    );
    lemma_forwarding_calls_wrapped_value(
        method,
        traitdef.generics,
        traitdef.ident,
        enum_def.ident,
        enum_def.variants,
        at,
        inner,
        enabled,
        deref,
    );
    assert(expansion(enum_def, traitdef, already).trait_impl.methods.contains(generated));
}

/// A variant that asks for a dereference gets it: the arm of such a variant calls the
/// interface's method on what one dereference of the wrapped value gives, never on the
/// wrapped value itself, and writes the receiver as a dereference of the bound value.
pub proof fn lemma_deref_variant_calls_through<V>(
    method: TraitItemMethodView,
    trait_generics: GenericsView,
    trait_name: Seq<char>,
    enum_name: Seq<char>,
    variant: EnumDispatchVariantView,
    inner: V,
    deref: spec_fn(V) -> V,
)
    requires
        variant.deref,
    ensures
        ({
            let arm = match_arm(method.sig, trait_generics, trait_name, enum_name, variant);
            let receiver = arm.body.args[0];
            &&& arm_invokes(arm, inner, deref).receiver == deref(inner)
            &&& receiver != FIELDNAME@
            &&& receiver == "*"@ + FIELDNAME@ || receiver == "&**"@ + FIELDNAME@ || receiver
                == "&mut **"@ + FIELDNAME@
        }),
{
    reveal_strlit("*");
    reveal_strlit("&**");
    reveal_strlit("&mut **");
    assert(("*"@ + FIELDNAME@).len() > FIELDNAME@.len());
    assert(("&**"@ + FIELDNAME@).len() > FIELDNAME@.len());
    assert(("&mut **"@ + FIELDNAME@).len() > FIELDNAME@.len());
}

/// The union value that a conversion into the union makes of a wrapped value.
pub open spec fn construct<V>(block: FromImplView, inner: V) -> UnionValue<V> {
    UnionValue { tag: block.variant_name, inner }
}

/// The patterns of the failing arms of an extraction.
pub open spec fn mismatch_patterns(arms: Seq<MismatchArmView>) -> Seq<ArmPattern> {
    arms.map_values(
        |arm: MismatchArmView| ArmPattern { attrs: arm.attrs, variant_name: arm.variant_name },
    )
}

/// What an extraction yields on a union value: the wrapped value where the value holds the
/// variant asked for, else the error of the failing arm that takes the value; `None` where
/// no arm takes it.
pub open spec fn extract<V>(
    block: TryIntoImplView,
    value: UnionValue<V>,
    enabled: spec_fn(AttributeView) -> bool,
) -> Option<Result<V, Seq<char>>> {
    if value.tag == block.variant_name {
        Some(Ok(value.inner))
    } else {
        match taken(mismatch_patterns(block.mismatches), value.tag, enabled) {
            Some(at) => Some(Err(block.mismatches[at].message)),
            None => None,
        }
    }
}

/// The failing arms of an extraction are those of the other variants, in the union's
/// order: the arm of a variant before the one asked for stands at the variant's own
/// position, the arm of a variant after it one position earlier.
pub proof fn lemma_mismatch_arms_positions(
    enum_name: Seq<char>,
    variants: Seq<EnumDispatchVariantView>,
    asked: int,
    upto: int,
)
    requires
        0 <= asked < variants.len(),
        0 <= upto <= variants.len(),
    ensures
        ({
            let arms = mismatch_arms(enum_name, variants, asked, upto);
            &&& arms.len() == if asked < upto {
                upto - 1
            } else {
                upto
            }
            &&& forall|i: int|
                0 <= i < upto && i < asked ==> #[trigger] arms[i] == mismatch_arm(
                    enum_name,
                    variants[i],
                    variants[asked].ident,
                )
            &&& forall|i: int|
                asked < i < upto ==> #[trigger] arms[i - 1] == mismatch_arm(
                    enum_name,
                    variants[i],
                    variants[asked].ident,
                )
        }),
    decreases upto,
{
    if upto > 0 {
        lemma_mismatch_arms_positions(enum_name, variants, asked, upto - 1);
        let before = mismatch_arms(enum_name, variants, asked, upto - 1);
        let arms = mismatch_arms(enum_name, variants, asked, upto);
        if upto - 1 != asked {
            assert(arms == before.push(
                mismatch_arm(enum_name, variants[upto - 1], variants[asked].ident),
            ));
            assert forall|i: int| asked < i < upto implies #[trigger] arms[i - 1] == mismatch_arm(
                enum_name,
                variants[i],
                variants[asked].ident,
            ) by {
                if i < upto - 1 {
                    assert(arms[i - 1] == before[i - 1]);
                }
            }
        }
    }
}

/// Conversion there and back: a union value made from a value of one variant's type gives
/// that value back when the same variant is asked for. Asked for any other variant, it
/// fails with the error that names the variant held first and the variant asked for
/// second.
pub proof fn lemma_conversion_round_trip<V>(
    enum_name: Seq<char>,
    variants: Seq<EnumDispatchVariantView>,
    generics: GenericsView,
    held: int,
    asked: int,
    inner: V,
    enabled: spec_fn(AttributeView) -> bool,
)
    requires
        variant_selectable(variants, held, enabled),
        0 <= asked < variants.len(),
    ensures
        ({
            let made = construct(from_impls(enum_name, variants, generics)[held], inner);
            let outcome = extract(try_into_impls(enum_name, variants, generics)[asked], made, enabled);
            &&& made == UnionValue { tag: variants[held].ident, inner }
            &&& asked == held ==> outcome == Some(Ok::<V, Seq<char>>(inner))
            &&& variants[asked].ident != variants[held].ident ==> outcome == Some(
                Err::<V, Seq<char>>(
                    mismatch_message(variants[held].ident, variants[asked].ident),
                ),
            )
            &&& asked != held && variant_present(variants[asked], enabled) ==> variants[asked].ident
                != variants[held].ident
        }),
{
    let target = impl_target(enum_name, generics);
    let block = try_into_impls(enum_name, variants, generics)[asked];
    assert(block == try_into_impl(target, variants, asked));
    let tag = variants[held].ident;
    if variants[asked].ident != tag {
        let arms = block.mismatches;
        let patterns = mismatch_patterns(arms);
        lemma_mismatch_arms_positions(enum_name, variants, asked, variants.len() as int);
        let at = if held < asked {
            held
        } else {
            held - 1
        };
        assert(arms[at] == mismatch_arm(enum_name, variants[held], variants[asked].ident));
        assert forall|j: int| 0 <= j < at implies !pattern_takes(#[trigger] patterns[j], tag, enabled) by {
            let from = if j < asked {
                j
            } else {
                j + 1
            };
            if j < asked {
                assert(arms[j] == mismatch_arm(enum_name, variants[j], variants[asked].ident));
            } else {
                assert(arms[(j + 1) - 1] == mismatch_arm(
                    enum_name,
                    variants[j + 1],
                    variants[asked].ident,
                ));
            }
            assert(patterns[j].attrs == cfg_attributes(variants[from].attrs));
            assert(patterns[j].variant_name == variants[from].ident);
        }
        lemma_taken_first(patterns, tag, enabled, at);
    }
}

/// The part of a list of arms that is in the build.
pub open spec fn arms_in_build(
    arms: Seq<MatchArmView>,
    enabled: spec_fn(AttributeView) -> bool,
) -> Seq<MatchArmView> {
    arms.filter(|arm: MatchArmView| present(arm.attrs, enabled))
}

/// The part of a list of variants that is in the build.
pub open spec fn variants_in_build(
    variants: Seq<EnumDispatchVariantView>,
    enabled: spec_fn(AttributeView) -> bool,
) -> Seq<EnumDispatchVariantView> {
    variants.filter(|variant: EnumDispatchVariantView| variant_present(variant, enabled))
}

/// Taking the part that a test accepts commutes with a mapping, where the test on what
/// the mapping gives is the test on what it is given.
proof fn lemma_filter_of_mapped<A, B>(
    items: Seq<A>,
    mapping: spec_fn(A) -> B,
    accepts: spec_fn(A) -> bool,
    accepts_mapped: spec_fn(B) -> bool,
)
    requires
        forall|item: A| accepts_mapped(#[trigger] mapping(item)) == accepts(item),
    ensures
        items.map_values(mapping).filter(accepts_mapped) == items.filter(accepts).map_values(
            mapping,
        ),
    decreases items.len(),
{
    reveal(Seq::filter);
    if items.len() == 0 {
        assert(items.map_values(mapping).filter(accepts_mapped) =~= items.filter(
            accepts,
        ).map_values(mapping));
    } else {
        let front = items.drop_last();
        let last = items.last();
        lemma_filter_of_mapped(front, mapping, accepts, accepts_mapped);
        assert(items =~= front.push(last));
        assert(items.map_values(mapping) =~= front.map_values(mapping).push(mapping(last)));
        front.map_values(mapping).lemma_filter_push(mapping(last), accepts_mapped);
        front.lemma_filter_push(last, accepts);
        if accepts(last) {
            assert(front.filter(accepts).push(last).map_values(mapping) =~= front.filter(
                accepts,
            ).map_values(mapping).push(mapping(last)));
        }
    }
}

/// A variant outside the build leaves no arm in it, and the arms of the other variants are
/// what they would be without it: the arms that are in the build are exactly the arms that
/// are generated from the variants that are in the build.
pub proof fn lemma_disabled_variants_leave_no_arm(
    sig: SignatureView,
    trait_generics: GenericsView,
    trait_name: Seq<char>,
    enum_name: Seq<char>,
    variants: Seq<EnumDispatchVariantView>,
    enabled: spec_fn(AttributeView) -> bool,
)
    ensures
        arms_in_build(
            match_expr(sig, trait_generics, trait_name, enum_name, variants).arms,
            enabled,
        ) == match_expr(
            sig,
            trait_generics,
            trait_name,
            enum_name,
            variants_in_build(variants, enabled),
        ).arms,
{
    let arm_of = |variant: EnumDispatchVariantView|
        match_arm(sig, trait_generics, trait_name, enum_name, variant);
    let variant_in = |variant: EnumDispatchVariantView| variant_present(variant, enabled);
    let arm_in = |arm: MatchArmView| present(arm.attrs, enabled);
    lemma_filter_of_mapped(variants, arm_of, variant_in, arm_in);
    assert(match_expr(sig, trait_generics, trait_name, enum_name, variants).arms
        == variants.map_values(arm_of));
    assert(match_expr(
        sig,
        trait_generics,
        trait_name,
        enum_name,
        variants_in_build(variants, enabled),
    ).arms == variants.filter(variant_in).map_values(arm_of));
}

/// The part of a list of conversions into the union that is in the build.
pub open spec fn conversions_in_build(
    blocks: Seq<FromImplView>,
    enabled: spec_fn(AttributeView) -> bool,
) -> Seq<FromImplView> {
    blocks.filter(|block: FromImplView| present(block.attrs, enabled))
}

/// A variant outside the build leaves no conversion into the union in it either: the
/// conversions that are in the build are exactly those that are generated from the
/// variants that are in the build.
pub proof fn lemma_disabled_variants_leave_no_conversion(
    enum_name: Seq<char>,
    variants: Seq<EnumDispatchVariantView>,
    generics: GenericsView,
    enabled: spec_fn(AttributeView) -> bool,
)
    ensures
        conversions_in_build(from_impls(enum_name, variants, generics), enabled) == from_impls(
            enum_name,
            variants_in_build(variants, enabled),
            generics,
        ),
{
    let block_of = |variant: EnumDispatchVariantView|
        from_impl(impl_target(enum_name, generics), variant);
    let variant_in = |variant: EnumDispatchVariantView| variant_present(variant, enabled);
    let block_in = |block: FromImplView| present(block.attrs, enabled);
    lemma_filter_of_mapped(variants, block_of, variant_in, block_in);
    assert(from_impls(enum_name, variants, generics) == variants.map_values(block_of));
    assert(from_impls(enum_name, variants_in_build(variants, enabled), generics)
        == variants.filter(variant_in).map_values(block_of));
}

/// A build, known by the conditional-compilation markers that do not hold in it.
pub struct Configuration {
    pub disabled: Vec<Attribute>,
}

/// The mathematical value of a [`Configuration`].
pub struct ConfigurationView {
    pub disabled: Seq<AttributeView>,
}

impl View for Configuration {
    type V = ConfigurationView;

    open spec fn view(&self) -> ConfigurationView {
        ConfigurationView { disabled: self.disabled.deep_view() }
    }
}

impl ConfigurationView {
    /// Whether a marker holds in the build.
    pub open spec fn enables(self, attr: AttributeView) -> bool {
        !self.disabled.contains(attr)
    }

    /// The test for the markers that hold in the build.
    pub open spec fn enabled(self) -> spec_fn(AttributeView) -> bool {
        |attr: AttributeView| self.enables(attr)
    }
}

/// What an extraction yields on a union value.
#[derive(Debug, PartialEq, Eq)]
pub enum Extraction {
    /// The wrapped value: the union value holds the variant asked for.
    Extracted,
    /// This error: the union value holds another variant.
    Mismatch(String),
    /// Nothing: no arm of the build takes the union value.
    Unmatched,
}

impl Configuration {
    /// The build in which every marker holds.
    pub fn new() -> (r: Configuration)
        ensures
            r@.disabled.len() == 0,
    {
        let disabled: Vec<Attribute> = Vec::new();
        proof {
            lemma_deep_view_entries(disabled);
        }
        Configuration { disabled }
    }

    /// Whether a marker holds in the build.
    pub fn enables(&self, attr: &Attribute) -> (r: bool)
        ensures
            r == self@.enables(attr@),
    {
        let mut i: usize = 0;
        proof {
            lemma_deep_view_entries(self.disabled);
        }
        while i < self.disabled.len()
            invariant
                i <= self.disabled.len(),
                self@.disabled.len() == self.disabled.len(),
                forall|j: int| 0 <= j < i ==> self@.disabled[j] != attr@,
            decreases self.disabled.len() - i,
        {
            proof {
                lemma_deep_view_entries(self.disabled);
            }
            if self.disabled[i].path == attr.path && self.disabled[i].tokens == attr.tokens {
                assert(self@.disabled[i as int] == attr@);
                return false;
            }
            i += 1;
        }
        true
    }

    /// Whether code that carries the markers `attrs` is part of the build.
    pub fn includes(&self, attrs: &Vec<Attribute>) -> (r: bool)
        ensures
            r == present(attrs.deep_view(), self@.enabled()),
    {
        let mut i: usize = 0;
        proof {
            lemma_deep_view_entries(*attrs);
        }
        while i < attrs.len()
            invariant
                i <= attrs.len(),
                attrs.deep_view().len() == attrs.len(),
                forall|j: int| 0 <= j < i ==> (self@.enabled())(#[trigger] attrs.deep_view()[j]),
            decreases attrs.len() - i,
        {
            proof {
                lemma_deep_view_entries(*attrs);
            }
            if !self.enables(&attrs[i]) {
                assert(!(self@.enabled())(attrs.deep_view()[i as int]));
                return false;
            }
            i += 1;
        }
        true
    }
}

impl ImplItemMethod {
    /// The position of the arm that a union value holding the variant `tag` takes in the
    /// given build; `None` where it takes none.
    pub fn taken_arm(&self, tag: &String, config: &Configuration) -> (r: Option<usize>)
        ensures
            match r {
                Some(at) => taken(arm_patterns(self@.body.arms), tag@, config@.enabled()) == Some(
                    at as int,
                ) && at < self.body.arms.len(),
                None => taken(arm_patterns(self@.body.arms), tag@, config@.enabled()) is None,
            },
    {
        let ghost patterns = arm_patterns(self@.body.arms);
        let arms = &self.body.arms;
        let mut i: usize = 0;
        proof {
            lemma_deep_view_entries(*arms);
        }
        while i < arms.len()
            invariant
                i <= arms.len(),
                arms == &self.body.arms,
                patterns == arm_patterns(self@.body.arms),
                patterns.len() == arms.len(),
                forall|j: int|
                    0 <= j < i ==> !pattern_takes(#[trigger] patterns[j], tag@, config@.enabled()),
            decreases arms.len() - i,
        {
            proof {
                lemma_deep_view_entries(*arms);
            }
            if arms[i].variant_name == *tag && config.includes(&arms[i].attrs) {
                proof {
                    lemma_taken_first(patterns, tag@, config@.enabled(), i as int);
                }
                return Some(i);
            }
            i += 1;
        }
        proof {
            lemma_taken_none(patterns, tag@, config@.enabled());
        }
        None
    }
}

impl TryIntoImpl {
    /// What the extraction yields, in the given build, on a union value that holds the
    /// variant `tag`.
    pub fn outcome(&self, tag: &String, config: &Configuration) -> (r: Extraction)
        ensures
            match extract(self@, UnionValue { tag: tag@, inner: () }, config@.enabled()) {
                Some(Ok(_)) => r == Extraction::Extracted,
                Some(Err(message)) => r matches Extraction::Mismatch(text) && text@ == message,
                None => r == Extraction::Unmatched,
            },
    {
        if self.variant_name == *tag {
            return Extraction::Extracted;
        }
        let ghost patterns = mismatch_patterns(self@.mismatches);
        let arms = &self.mismatches;
        let mut i: usize = 0;
        proof {
            lemma_deep_view_entries(*arms);
        }
        while i < arms.len()
            invariant
                i <= arms.len(),
                arms == &self.mismatches,
                self.variant_name@ != tag@,
                patterns == mismatch_patterns(self@.mismatches),
                patterns.len() == arms.len(),
                forall|j: int|
                    0 <= j < i ==> !pattern_takes(#[trigger] patterns[j], tag@, config@.enabled()),
            decreases arms.len() - i,
        {
            proof {
                lemma_deep_view_entries(*arms);
            }
            if arms[i].variant_name == *tag && config.includes(&arms[i].attrs) {
                proof {
                    lemma_taken_first(patterns, tag@, config@.enabled(), i as int);
                    assert(self@.mismatches[i as int] == arms[i as int]@);
                }
                return Extraction::Mismatch(arms[i].message.clone());
            }
            i += 1;
        }
        proof {
            lemma_taken_none(patterns, tag@, config@.enabled());
        }
        Extraction::Unmatched
    }
}

} // verus!
