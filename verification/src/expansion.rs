//! The generator: from a union and an interface to the implementation blocks that let the
//! union stand in for any of the types it wraps.

use vstd::prelude::*;
use vstd::string::*;

use crate::attribute::{cfg_attributes, used_attributes, Attribute, AttributeView};
use crate::cache::{cache_enum_conversion_impls_defined, conversion_impls_def_by_enum, Registry};
use crate::enum_dispatch_item::{EnumDispatchItem, EnumDispatchItemView};
use crate::enum_dispatch_variant::{EnumDispatchVariant, EnumDispatchVariantView};
use crate::generics::{Generics, GenericsView};
use crate::impl_blocks::{
    Expansion, ExpansionView, FromImpl, FromImplView, ImplItemConst, ImplItemConstView,
    ImplItemMethod, ImplItemMethodView, ImplTarget, ImplTargetView, ItemImpl, ItemImplView,
    MatchArm, MatchArmView, MatchExpr, MatchExprView, MismatchArm, MismatchArmView, TraitFnCall,
    TraitFnCallView, TryIntoImpl, TryIntoImplView,
};
use crate::item_trait::{
    FnArg, FnArgView, ItemTrait, ItemTraitView, SignatureView, TraitItem, TraitItemConstView,
    TraitItemMethod, TraitItemMethodView, TraitItemView,
};
use crate::views::{
    clone_vec, lemma_deep_view_entries, lemma_deep_view_push, lemma_deep_view_take_all,
    lemma_deep_view_take_next,
};

verus! {

/// The name to which every generated arm binds the value that the variant wraps.
pub const FIELDNAME: &'static str = "inner";

/// How a method takes `self`.
#[derive(Debug, PartialEq, Eq, Structural, Clone, Copy)]
pub enum MethodType {
    /// Not at all: there is no union value whose variant could be told.
    Static,
    /// By reference: `&self` or `&mut self`.
    ByReference,
    /// By value: `self`.
    ByValue,
}

/// How a method with these parameters takes `self`. Where `self` is written more than once,
/// the last one decides.
pub open spec fn method_type_of(inputs: Seq<FnArgView>) -> MethodType
    decreases inputs.len(),
{
    if inputs.len() == 0 {
        MethodType::Static
    } else {
        match inputs.last() {
            FnArgView::Receiver { reference, .. } => if reference {
                MethodType::ByReference
            } else {
                MethodType::ByValue
            },
            FnArgView::Typed { .. } => method_type_of(inputs.drop_last()),
        }
    }
}

/// Whether a method with these parameters takes `self` by `&mut`.
pub open spec fn receiver_is_mutable(inputs: Seq<FnArgView>) -> bool
    decreases inputs.len(),
{
    if inputs.len() == 0 {
        false
    } else {
        match inputs.last() {
            FnArgView::Receiver { reference, mutable, .. } => reference && mutable,
            FnArgView::Typed { .. } => receiver_is_mutable(inputs.drop_last()),
        }
    }
}

/// Whether a parameter can be handed on: `self` always, another parameter where it binds a
/// plain name.
pub open spec fn argument_supported(arg: FnArgView) -> bool {
    match arg {
        FnArgView::Receiver { .. } => true,
        FnArgView::Typed { ident, .. } => ident is Some,
    }
}

/// Whether every parameter can be handed on.
pub open spec fn arguments_supported(inputs: Seq<FnArgView>) -> bool {
    forall|i: int| 0 <= i < inputs.len() ==> argument_supported(#[trigger] inputs[i])
}

/// The names that the parameters other than `self` bind, in their order.
pub open spec fn argument_names(inputs: Seq<FnArgView>) -> Seq<Seq<char>>
    decreases inputs.len(),
{
    if inputs.len() == 0 {
        Seq::empty()
    } else {
        let before = argument_names(inputs.drop_last());
        match inputs.last() {
            FnArgView::Typed { ident: Some(name), .. } => before.push(name),
            _ => before,
        }
    }
}

/// Reads the parameters of a method: how it takes `self`, and the names of its other
/// parameters in their order. `None` where a parameter binds no plain name.
pub fn extract_fn_args(trait_args: &Vec<FnArg>) -> (r: Option<(MethodType, Vec<String>)>)
    ensures
        match r {
            Some((method_type, args)) => {
                &&& arguments_supported(trait_args.deep_view())
                &&& method_type == method_type_of(trait_args.deep_view())
                &&& args.deep_view() == argument_names(trait_args.deep_view())
            },
            None => !arguments_supported(trait_args.deep_view()),
        },
{
    let ghost inputs = trait_args.deep_view();
    let mut method_type = MethodType::Static;
    let mut args: Vec<String> = Vec::new();
    let mut i: usize = 0;
    proof {
        lemma_deep_view_entries(*trait_args);
        lemma_deep_view_entries(args);
        assert(args.deep_view() =~= argument_names(inputs.take(0)));
    }
    while i < trait_args.len()
        invariant
            i <= trait_args.len(),
            inputs == trait_args.deep_view(),
            inputs.len() == trait_args.len(),
            forall|j: int| 0 <= j < i ==> argument_supported(#[trigger] inputs[j]),
            method_type == method_type_of(inputs.take(i as int)),
            args.deep_view() == argument_names(inputs.take(i as int)),
        decreases trait_args.len() - i,
    {
        let ghost before = args;
        proof {
            lemma_deep_view_take_next(*trait_args, i as int);
            lemma_deep_view_entries(*trait_args);
        }
        match &trait_args[i] {
            FnArg::Receiver { reference, .. } => {
                if *reference {
                    method_type = MethodType::ByReference;
                } else {
                    method_type = MethodType::ByValue;
                }
            },
            FnArg::Typed { ident, .. } => {
                match ident {
                    Some(name) => {
                        let one = name.clone();
                        args.push(one);
                        proof {
                            lemma_deep_view_push(before, args, one);
                        }
                    },
                    None => {
                        assert(!argument_supported(inputs[i as int]));
                        return None;
                    },
                }
            },
        }
        i += 1;
    }
    proof {
        lemma_deep_view_take_all(*trait_args);
    }
    Some((method_type, args))
}

/// Whether a method with these parameters takes `self` by `&mut`.
pub fn takes_self_mutably(trait_args: &Vec<FnArg>) -> (r: bool)
    ensures
        r == receiver_is_mutable(trait_args.deep_view()),
{
    let ghost inputs = trait_args.deep_view();
    let mut mutably = false;
    let mut i: usize = 0;
    proof {
        lemma_deep_view_entries(*trait_args);
    }
    while i < trait_args.len()
        invariant
            i <= trait_args.len(),
            inputs == trait_args.deep_view(),
            mutably == receiver_is_mutable(inputs.take(i as int)),
        decreases trait_args.len() - i,
    {
        proof {
            lemma_deep_view_take_next(*trait_args, i as int);
        }
        match &trait_args[i] {
            FnArg::Receiver { reference, mutable, .. } => {
                mutably = *reference && *mutable;
            },
            FnArg::Typed { .. } => {},
        }
        i += 1;
    }
    proof {
        lemma_deep_view_take_all(*trait_args);
    }
    mutably
}

/// The call that every arm of the forwarding method for `sig` makes, before the receiver is
/// fitted to the arm's variant: the interface's method, named through the interface, on the
/// bound value, followed by the method's other parameters in their order.
pub open spec fn trait_fn_call(
    sig: SignatureView,
    trait_generics: GenericsView,
    trait_name: Seq<char>,
) -> TraitFnCallView {
    TraitFnCallView {
        trait_name,
        trait_turbofish: trait_generics.turbofish(),
        method_name: sig.ident,
        method_turbofish: sig.generics.turbofish(),
        args: seq![FIELDNAME@] + argument_names(sig.inputs),
    }
}

/// Whether a method of this signature has a shape that can be forwarded: it takes `self`,
/// and each of its other parameters binds a plain name.
pub open spec fn callable(sig: SignatureView) -> bool {
    method_type_of(sig.inputs) != MethodType::Static && arguments_supported(sig.inputs)
}

/// Creates the call that the arms of the forwarding method for `trait_method` make. `None`
/// where the method cannot be forwarded: it is static, so that there is no union value to
/// match on, or one of its parameters binds no plain name.
pub fn create_trait_fn_call(
    trait_method: &TraitItemMethod,
    trait_generics: &Generics,
    trait_name: &String,
) -> (r: Option<TraitFnCall>)
    ensures
        match r {
            Some(call) => callable(trait_method@.sig) && call@ == trait_fn_call(
                trait_method@.sig,
                trait_generics@,
                trait_name@,
            ),
            None => !callable(trait_method@.sig),
        },
{
    match extract_fn_args(&trait_method.sig.inputs) {
        None => None,
        Some((method_type, names)) => {
            if method_type == MethodType::Static {
                return None;
            }
            // The bound value goes first: the method is called through the interface.
            let mut args: Vec<String> = Vec::new();
            let explicit_self_arg = String::from_str(FIELDNAME);
            args.push(explicit_self_arg);
            let mut i: usize = 0;
            proof {
                lemma_deep_view_entries(args);
                lemma_deep_view_entries(names);
                assert(args.deep_view() =~= seq![FIELDNAME@] + names.deep_view().take(0));
            }
            while i < names.len()
                invariant
                    i <= names.len(),
                    args.deep_view() == seq![FIELDNAME@] + names.deep_view().take(i as int),
                decreases names.len() - i,
            {
                let ghost before = args;
                let one = names[i].clone();
                args.push(one);
                proof {
                    lemma_deep_view_take_next(names, i as int);
                    lemma_deep_view_push(before, args, one);
                    assert(args.deep_view() =~= seq![FIELDNAME@] + names.deep_view().take(i + 1));
                }
                i += 1;
            }
            proof {
                lemma_deep_view_take_all(names);
            }
            Some(
                TraitFnCall {
                    trait_name: trait_name.clone(),
                    trait_turbofish: trait_generics.as_turbofish(),
                    method_name: trait_method.sig.ident.clone(),
                    method_turbofish: trait_method.sig.generics.as_turbofish(),
                    args,
                },
            )
        },
    }
}

/// The expression through which an arm hands the bound value to the interface's method.
///
/// The bound value itself, unless the variant asks for a dereference. Then the call reaches
/// its target through one more dereference than the binding has: the binding of a method
/// that takes `self` by reference is itself a reference, which is taken off first and put
/// back on afterwards.
pub open spec fn receiver_expression(deref: bool, method_type: MethodType, mutable: bool) -> Seq<
    char,
> {
    if !deref {
        FIELDNAME@
    } else if method_type == MethodType::ByValue {
        "*"@ + FIELDNAME@
    } else if mutable {
        "&mut **"@ + FIELDNAME@
    } else {
        "&**"@ + FIELDNAME@
    }
}

/// The arm of the forwarding method for `sig` that matches `variant`.
pub open spec fn match_arm(
    sig: SignatureView,
    trait_generics: GenericsView,
    trait_name: Seq<char>,
    enum_name: Seq<char>,
    variant: EnumDispatchVariantView,
) -> MatchArmView {
    let call = trait_fn_call(sig, trait_generics, trait_name);
    MatchArmView {
        attrs: cfg_attributes(variant.attrs),
        enum_name,
        variant_name: variant.ident,
        deref: variant.deref,
        body: TraitFnCallView {
            args: call.args.update(
                0,
                receiver_expression(
                    variant.deref,
                    method_type_of(sig.inputs),
                    receiver_is_mutable(sig.inputs),
                ),
            ),
            ..call
        },
    }
}

/// The body of the forwarding method for `sig`: one arm per variant, in the union's order.
pub open spec fn match_expr(
    sig: SignatureView,
    trait_generics: GenericsView,
    trait_name: Seq<char>,
    enum_name: Seq<char>,
    variants: Seq<EnumDispatchVariantView>,
) -> MatchExprView {
    MatchExprView {
        arms: variants.map_values(
            |variant: EnumDispatchVariantView|
                match_arm(sig, trait_generics, trait_name, enum_name, variant),
        ),
    }
}

/// Writes the expression through which an arm hands the bound value on.
fn receiver_for(deref: bool, method_type: MethodType, mutable: bool) -> (r: String)
    ensures
        r@ == receiver_expression(deref, method_type, mutable),
{
    let mut text = String::new();
    proof {
        assert(text@ + FIELDNAME@ =~= FIELDNAME@);
        assert(text@ + "*"@ =~= "*"@);
        assert(text@ + "&mut **"@ =~= "&mut **"@);
        assert(text@ + "&**"@ =~= "&**"@);
    }
    if !deref {
    } else if method_type == MethodType::ByValue {
        text.append("*");
    } else if mutable {
        text.append("&mut **");
    } else {
        text.append("&**");
    }
    text.append(FIELDNAME);
    text
}

/// Constructs the body of the forwarding method for `trait_method`: a match on the union
/// value with one arm for each variant, which binds the wrapped value and calls the
/// interface's method on it. `None` where the method cannot be forwarded.
pub fn create_match_expr(
    trait_method: &TraitItemMethod,
    trait_generics: &Generics,
    trait_name: &String,
    enum_name: &String,
    enumvariants: &Vec<EnumDispatchVariant>,
) -> (r: Option<MatchExpr>)
    ensures
        match r {
            Some(expr) => callable(trait_method@.sig) && expr@ == match_expr(
                trait_method@.sig,
                trait_generics@,
                trait_name@,
                enum_name@,
                enumvariants.deep_view(),
            ),
            None => !callable(trait_method@.sig),
        },
{
    let trait_fn_call = match create_trait_fn_call(trait_method, trait_generics, trait_name) {
        Some(call) => call,
        None => {
            return None;
        },
    };
    let method_type = match extract_fn_args(&trait_method.sig.inputs) {
        Some((method_type, _)) => method_type,
        None => {
            return None;
        },
    };
    let mutable = takes_self_mutably(&trait_method.sig.inputs);
    let ghost sig = trait_method@.sig;
    let ghost variants = enumvariants.deep_view();
    let ghost arm_of = |variant: EnumDispatchVariantView|
        match_arm(sig, trait_generics@, trait_name@, enum_name@, variant);
    let mut match_arms: Vec<MatchArm> = Vec::new();
    let mut i: usize = 0;
    proof {
        lemma_deep_view_entries(*enumvariants);
        lemma_deep_view_entries(match_arms);
        lemma_deep_view_entries(trait_fn_call.args);
        assert(match_arms.deep_view() =~= variants.take(0).map_values(arm_of));
    }
    while i < enumvariants.len()
        invariant
            i <= enumvariants.len(),
            sig == trait_method@.sig,
            variants == enumvariants.deep_view(),
            trait_fn_call@ == crate::expansion::trait_fn_call(sig, trait_generics@, trait_name@),
            method_type == method_type_of(sig.inputs),
            mutable == receiver_is_mutable(sig.inputs),
            arm_of == (|variant: EnumDispatchVariantView|
                match_arm(sig, trait_generics@, trait_name@, enum_name@, variant)),
            match_arms.deep_view() == variants.take(i as int).map_values(arm_of),
        decreases enumvariants.len() - i,
    {
        let ghost before = match_arms;
        let variant = &enumvariants[i];
        let mut body = trait_fn_call.clone();
        let ghost plain = body.args;
        proof {
            lemma_deep_view_entries(body.args);
        }
        body.args.set(0, receiver_for(variant.deref, method_type, mutable));
        proof {
            lemma_deep_view_entries(plain);
            lemma_deep_view_entries(body.args);
            assert(body.args.deep_view() =~= trait_fn_call@.args.update(
                0,
                receiver_expression(variant.deref, method_type, mutable),
            ));
        }
        let arm = MatchArm {
            attrs: used_attributes(&variant.attrs),
            enum_name: enum_name.clone(),
            variant_name: variant.ident.clone(),
            deref: variant.deref,
            body,
        };
        match_arms.push(arm);
        proof {
            lemma_deep_view_take_next(*enumvariants, i as int);
            lemma_deep_view_push(before, match_arms, arm);
            assert(arm@ == arm_of(variant@));
            assert(variants.take(i + 1).map_values(arm_of) =~= variants.take(i as int).map_values(
                arm_of,
            ).push(arm@));
        }
        i += 1;
    }
    proof {
        lemma_deep_view_take_all(*enumvariants);
    }
    Some(MatchExpr { arms: match_arms })
}

/// The attribute that marks every forwarding method for inlining.
pub open spec fn inline_attribute() -> AttributeView {
    AttributeView { path: "inline"@, tokens: ""@ }
}

/// Whether one of the names `used` is among `unresolved`.
pub open spec fn names_overlap(used: Seq<Seq<char>>, unresolved: Seq<Seq<char>>) -> bool {
    exists|i: int| 0 <= i < used.len() && unresolved.contains(#[trigger] used[i])
}

/// Whether a signature refers to one of the associated items `unresolved`.
pub open spec fn depends_on(sig: SignatureView, unresolved: Seq<Seq<char>>) -> bool {
    names_overlap(sig.associated, unresolved)
}

/// Whether an item of an interface is forwarded: it is a method, it takes `self`, each of
/// its other parameters binds a plain name, and its signature refers to none of the
/// associated items `unresolved`.
pub open spec fn forwarded(item: TraitItemView, unresolved: Seq<Seq<char>>) -> bool {
    match item {
        TraitItemView::Method(method) => callable(method.sig) && !depends_on(
            method.sig,
            unresolved,
        ),
        _ => false,
    }
}

/// The forwarding method for a method of the interface: the method's own attributes and
/// `#[inline]`, the method's own signature, and the match on the union value.
pub open spec fn forwarding_method(
    method: TraitItemMethodView,
    trait_generics: GenericsView,
    trait_name: Seq<char>,
    enum_name: Seq<char>,
    variants: Seq<EnumDispatchVariantView>,
) -> ImplItemMethodView {
    ImplItemMethodView {
        attrs: method.attrs.push(inline_attribute()),
        sig: method.sig,
        body: match_expr(method.sig, trait_generics, trait_name, enum_name, variants),
    }
}

/// Whether `name` is one of `names`.
fn is_among(name: &String, names: &Vec<String>) -> (r: bool)
    ensures
        r == names.deep_view().contains(name@),
{
    let mut i: usize = 0;
    proof {
        lemma_deep_view_entries(*names);
    }
    while i < names.len()
        invariant
            i <= names.len(),
            names.deep_view().len() == names.len(),
            forall|j: int| 0 <= j < i ==> names.deep_view()[j] != name@,
        decreases names.len() - i,
    {
        proof {
            lemma_deep_view_entries(*names);
        }
        if names[i] == *name {
            assert(names.deep_view()[i as int] == name@);
            return true;
        }
        i += 1;
    }
    false
}

/// Whether one of the names `used` is among `unresolved`.
fn any_among(used: &Vec<String>, unresolved: &Vec<String>) -> (r: bool)
    ensures
        r == names_overlap(used.deep_view(), unresolved.deep_view()),
{
    let mut i: usize = 0;
    proof {
        lemma_deep_view_entries(*used);
    }
    while i < used.len()
        invariant
            i <= used.len(),
            used.deep_view().len() == used.len(),
            forall|j: int| 0 <= j < i ==> !unresolved.deep_view().contains(#[trigger] used.deep_view()[j]),
        decreases used.len() - i,
    {
        proof {
            lemma_deep_view_entries(*used);
        }
        if is_among(&used[i], unresolved) {
            assert(unresolved.deep_view().contains(used.deep_view()[i as int]));
            return true;
        }
        i += 1;
    }
    false
}

/// Builds the forwarding method for one item of the interface, or decides that the item
/// is not forwarded.
///
/// Only methods are forwarded, and of these only the ones that take `self`, whose other
/// parameters each bind a plain name, and whose signature refers to none of the associated
/// items `unresolved`: such an item has a value of its own in each wrapped type, so that no
/// single signature fits them all. Every other item is passed over; the items after it are
/// not affected.
pub fn create_trait_match(
    trait_item: &TraitItem,
    unresolved: &Vec<String>,
    trait_generics: &Generics,
    trait_name: &String,
    enum_name: &String,
    enumvariants: &Vec<EnumDispatchVariant>,
) -> (r: Option<ImplItemMethod>)
    ensures
        match r {
            Some(method) => forwarded(trait_item@, unresolved.deep_view()) && method@
                == forwarding_method(
                trait_item@->Method_0,
                trait_generics@,
                trait_name@,
                enum_name@,
                enumvariants.deep_view(),
            ),
            None => !forwarded(trait_item@, unresolved.deep_view()),
        },
{
    match trait_item {
        TraitItem::Method(trait_method) => {
            if any_among(&trait_method.sig.associated, unresolved) {
                return None;
            }
            let match_expr = match create_match_expr(
                trait_method,
                trait_generics,
                trait_name,
                enum_name,
                enumvariants,
            ) {
                Some(expr) => expr,
                None => {
                    return None;
                },
            };
            let mut impl_attrs = clone_vec(&trait_method.attrs);
            let ghost own = impl_attrs;
            // No method of an interface is marked for inlining already.
            let inline = Attribute::new("inline", "");
            impl_attrs.push(inline);
            proof {
                lemma_deep_view_push(own, impl_attrs, inline);
                assert(inline@ == inline_attribute());
            }
            Some(
                ImplItemMethod {
                    attrs: impl_attrs,
                    sig: trait_method.sig.clone(),
                    body: match_expr,
                },
            )
        },
        _ => None,
    }
}

/// What the implementation blocks for the union `enum_name` with these generic parameters
/// start from.
pub open spec fn impl_target(enum_name: Seq<char>, generics: GenericsView) -> ImplTargetView {
    ImplTargetView {
        impl_generics: generics.impl_generics(),
        enum_name,
        type_generics: generics.type_generics(),
        where_clause: generics.where_clause,
    }
}

/// Writes down what the implementation blocks for a union start from.
fn target_of(enumname: &String, generics: &Generics) -> (r: ImplTarget)
    ensures
        r@ == impl_target(enumname@, generics@),
{
    let (impl_generics, type_generics, where_clause) = generics.split_for_impl();
    ImplTarget { impl_generics, enum_name: enumname.clone(), type_generics, where_clause }
}

/// The conversion into the union from the type that `variant` wraps.
pub open spec fn from_impl(target: ImplTargetView, variant: EnumDispatchVariantView) -> FromImplView {
    FromImplView {
        attrs: cfg_attributes(variant.attrs),
        target,
        variant_name: variant.ident,
        variant_type: variant.ty,
    }
}

/// The conversions into the union: one per variant, in the union's order.
pub open spec fn from_impls(
    enum_name: Seq<char>,
    variants: Seq<EnumDispatchVariantView>,
    generics: GenericsView,
) -> Seq<FromImplView> {
    variants.map_values(
        |variant: EnumDispatchVariantView| from_impl(impl_target(enum_name, generics), variant),
    )
}

/// Generates, for each variant, the conversion of a value of the wrapped type into the
/// union value that carries the variant's tag.
pub fn generate_from_impls(
    enumname: &String,
    enumvariants: &Vec<EnumDispatchVariant>,
    generics: &Generics,
) -> (r: Vec<FromImpl>)
    ensures
        r.deep_view() == from_impls(enumname@, enumvariants.deep_view(), generics@),
{
    let target = target_of(enumname, generics);
    let ghost variants = enumvariants.deep_view();
    let ghost block_of = |variant: EnumDispatchVariantView|
        from_impl(impl_target(enumname@, generics@), variant);
    let mut blocks: Vec<FromImpl> = Vec::new();
    let mut i: usize = 0;
    proof {
        lemma_deep_view_entries(*enumvariants);
        lemma_deep_view_entries(blocks);
        assert(blocks.deep_view() =~= variants.take(0).map_values(block_of));
    }
    while i < enumvariants.len()
        invariant
            i <= enumvariants.len(),
            variants == enumvariants.deep_view(),
            target@ == impl_target(enumname@, generics@),
            block_of == (|variant: EnumDispatchVariantView|
                from_impl(impl_target(enumname@, generics@), variant)),
            blocks.deep_view() == variants.take(i as int).map_values(block_of),
        decreases enumvariants.len() - i,
    {
        let ghost before = blocks;
        let variant = &enumvariants[i];
        let block = FromImpl {
            attrs: used_attributes(&variant.attrs),
            target: target.clone(),
            variant_name: variant.ident.clone(),
            variant_type: variant.ty.clone(),
        };
        blocks.push(block);
        proof {
            lemma_deep_view_take_next(*enumvariants, i as int);
            lemma_deep_view_push(before, blocks, block);
            assert(block@ == block_of(variant@));
            assert(variants.take(i + 1).map_values(block_of) =~= variants.take(i as int).map_values(
                block_of,
            ).push(block@));
        }
        i += 1;
    }
    proof {
        lemma_deep_view_take_all(*enumvariants);
    }
    blocks
}

/// The error of an extraction that asked for the variant `asked` of a union value that
/// holds the variant `held`.
pub open spec fn mismatch_message(held: Seq<char>, asked: Seq<char>) -> Seq<char> {
    "Tried to convert variant "@ + held + " to "@ + asked
}

/// The arm that fails an extraction of `asked` from a union value that holds `other`.
pub open spec fn mismatch_arm(
    enum_name: Seq<char>,
    other: EnumDispatchVariantView,
    asked: Seq<char>,
) -> MismatchArmView {
    MismatchArmView {
        attrs: cfg_attributes(other.attrs),
        enum_name,
        variant_name: other.ident,
        message: mismatch_message(other.ident, asked),
    }
}

/// The failing arms of the extraction of the variant at `asked`, as far as they come from
/// the first `upto` variants: one for each of these but the one asked for, in their order.
pub open spec fn mismatch_arms(
    enum_name: Seq<char>,
    variants: Seq<EnumDispatchVariantView>,
    asked: int,
    upto: int,
) -> Seq<MismatchArmView>
    recommends
        0 <= asked < variants.len(),
        0 <= upto <= variants.len(),
    decreases upto,
{
    if upto <= 0 {
        Seq::empty()
    } else {
        let before = mismatch_arms(enum_name, variants, asked, upto - 1);
        if upto - 1 == asked {
            before
        } else {
            before.push(mismatch_arm(enum_name, variants[upto - 1], variants[asked].ident))
        }
    }
}

/// The extraction from the union of the type that the variant at `asked` wraps.
pub open spec fn try_into_impl(
    target: ImplTargetView,
    variants: Seq<EnumDispatchVariantView>,
    asked: int,
) -> TryIntoImplView
    recommends
        0 <= asked < variants.len(),
{
    TryIntoImplView {
        attrs: cfg_attributes(variants[asked].attrs),
        target,
        variant_name: variants[asked].ident,
        variant_type: variants[asked].ty,
        mismatches: mismatch_arms(target.enum_name, variants, asked, variants.len() as int),
    }
}

/// The extractions from the union: one per variant, in the union's order.
pub open spec fn try_into_impls(
    enum_name: Seq<char>,
    variants: Seq<EnumDispatchVariantView>,
    generics: GenericsView,
) -> Seq<TryIntoImplView> {
    Seq::new(
        variants.len(),
        |asked: int| try_into_impl(impl_target(enum_name, generics), variants, asked),
    )
}

/// Writes the error of an extraction.
fn message_for(held: &String, asked: &String) -> (r: String)
    ensures
        r@ == mismatch_message(held@, asked@),
{
    let mut message = String::from_str("Tried to convert variant ");
    message.append(held.as_str());
    message.append(" to ");
    message.append(asked.as_str());
    message
}

/// Generates, for each variant, the extraction of the wrapped value from a union value.
///
/// The extraction succeeds on a union value that holds the variant. For every other
/// variant it has an arm of its own, which fails with an error that names both variants.
/// There is no catch-all arm, so the extraction from a union of a single variant has no
/// failing arm at all.
pub fn generate_try_into_impls(
    enumname: &String,
    enumvariants: &Vec<EnumDispatchVariant>,
    generics: &Generics,
) -> (r: Vec<TryIntoImpl>)
    ensures
        r.deep_view() == try_into_impls(enumname@, enumvariants.deep_view(), generics@),
{
    let target = target_of(enumname, generics);
    let ghost variants = enumvariants.deep_view();
    let mut blocks: Vec<TryIntoImpl> = Vec::new();
    let mut i: usize = 0;
    proof {
        lemma_deep_view_entries(*enumvariants);
        lemma_deep_view_entries(blocks);
    }
    while i < enumvariants.len()
        invariant
            i <= enumvariants.len(),
            variants == enumvariants.deep_view(),
            variants.len() == enumvariants.len(),
            target@ == impl_target(enumname@, generics@),
            blocks.deep_view().len() == i,
            forall|k: int|
                0 <= k < i ==> #[trigger] blocks.deep_view()[k] == try_into_impl(
                    target@,
                    variants,
                    k,
                ),
        decreases enumvariants.len() - i,
    {
        let variant = &enumvariants[i];
        let mut mismatches: Vec<MismatchArm> = Vec::new();
        let mut j: usize = 0;
        proof {
            lemma_deep_view_entries(mismatches);
            assert(mismatches.deep_view() =~= mismatch_arms(enumname@, variants, i as int, 0));
        }
        while j < enumvariants.len()
            invariant
                j <= enumvariants.len(),
                i < enumvariants.len(),
                variants == enumvariants.deep_view(),
                variants.len() == enumvariants.len(),
                variant == enumvariants[i as int],
                mismatches.deep_view() == mismatch_arms(enumname@, variants, i as int, j as int),
            decreases enumvariants.len() - j,
        {
            let ghost before = mismatches;
            proof {
                lemma_deep_view_entries(*enumvariants);
            }
            if i != j {
                let other = &enumvariants[j];
                let arm = MismatchArm {
                    attrs: used_attributes(&other.attrs),
                    enum_name: enumname.clone(),
                    variant_name: other.ident.clone(),
                    message: message_for(&other.ident, &variant.ident),
                };
                mismatches.push(arm);
                proof {
                    lemma_deep_view_push(before, mismatches, arm);
                    assert(arm@ == mismatch_arm(enumname@, variants[j as int], variants[i as int].ident));
                }
            }
            j += 1;
        }
        let ghost before = blocks;
        let block = TryIntoImpl {
            attrs: used_attributes(&variant.attrs),
            target: target.clone(),
            variant_name: variant.ident.clone(),
            variant_type: variant.ty.clone(),
            mismatches,
        };
        blocks.push(block);
        proof {
            lemma_deep_view_entries(*enumvariants);
            lemma_deep_view_push(before, blocks, block);
            assert(block@ == try_into_impl(target@, variants, i as int));
        }
        i += 1;
    }
    proof {
        assert(blocks.deep_view() =~= try_into_impls(enumname@, variants, generics@));
    }
    blocks
}

/// The names of the associated items of an interface that have no value of their own in
/// the interface: its associated types, and its constants without a provided value.
pub open spec fn unresolved_items(items: Seq<TraitItemView>) -> Seq<Seq<char>>
    decreases items.len(),
{
    if items.len() == 0 {
        Seq::empty()
    } else {
        let before = unresolved_items(items.drop_last());
        match items.last() {
            TraitItemView::Type(ident) => before.push(ident),
            TraitItemView::Const(constant) => if constant.default is None {
                before.push(constant.ident)
            } else {
                before
            },
            _ => before,
        }
    }
}

/// The constants of the forwarding implementation: those constants of the interface for
/// which it provides a value, with that value, in their order.
pub open spec fn impl_consts(items: Seq<TraitItemView>) -> Seq<ImplItemConstView>
    decreases items.len(),
{
    if items.len() == 0 {
        Seq::empty()
    } else {
        let before = impl_consts(items.drop_last());
        match items.last() {
            TraitItemView::Const(
                TraitItemConstView { attrs, ident, ty, default: Some(expr) },
            ) => before.push(ImplItemConstView { attrs, ident, ty, expr }),
            _ => before,
        }
    }
}

/// The methods of the forwarding implementation: one for each forwarded item of the
/// interface, in their order.
pub open spec fn impl_methods(
    items: Seq<TraitItemView>,
    unresolved: Seq<Seq<char>>,
    trait_generics: GenericsView,
    trait_name: Seq<char>,
    enum_name: Seq<char>,
    variants: Seq<EnumDispatchVariantView>,
) -> Seq<ImplItemMethodView>
    decreases items.len(),
{
    if items.len() == 0 {
        Seq::empty()
    } else {
        let before = impl_methods(
            items.drop_last(),
            unresolved,
            trait_generics,
            trait_name,
            enum_name,
            variants,
        );
        if forwarded(items.last(), unresolved) {
            before.push(
                forwarding_method(
                    items.last()->Method_0,
                    trait_generics,
                    trait_name,
                    enum_name,
                    variants,
                ),
            )
        } else {
            before
        }
    }
}

/// The implementation of the interface for the union.
pub open spec fn trait_impl(enum_def: EnumDispatchItemView, traitdef: ItemTraitView) -> ItemImplView {
    ItemImplView {
        unsafety: traitdef.unsafety,
        target: impl_target(enum_def.ident, enum_def.generics),
        trait_name: traitdef.ident,
        trait_generics: traitdef.generics.type_generics(),
        consts: impl_consts(traitdef.items),
        methods: impl_methods(
            traitdef.items,
            unresolved_items(traitdef.items),
            traitdef.generics,
            traitdef.ident,
            enum_def.ident,
            enum_def.variants,
        ),
    }
}

/// What is generated for the pairing of a union with an interface. The conversions are
/// left out where they were `already` generated for this union.
pub open spec fn expansion(
    enum_def: EnumDispatchItemView,
    traitdef: ItemTraitView,
    already: bool,
) -> ExpansionView {
    ExpansionView {
        from_impls: if already {
            Seq::empty()
        } else {
            from_impls(enum_def.ident, enum_def.variants, enum_def.generics)
        },
        try_into_impls: if already {
            Seq::empty()
        } else {
            try_into_impls(enum_def.ident, enum_def.variants, enum_def.generics)
        },
        trait_impl: trait_impl(enum_def, traitdef),
    }
}

/// Collects the names of the associated items that have no value in the interface itself.
fn collect_unresolved(items: &Vec<TraitItem>) -> (r: Vec<String>)
    ensures
        r.deep_view() == unresolved_items(items.deep_view()),
{
    let mut names: Vec<String> = Vec::new();
    let mut i: usize = 0;
    proof {
        lemma_deep_view_entries(*items);
        lemma_deep_view_entries(names);
        assert(names.deep_view() =~= unresolved_items(items.deep_view().take(0)));
    }
    while i < items.len()
        invariant
            i <= items.len(),
            names.deep_view() == unresolved_items(items.deep_view().take(i as int)),
        decreases items.len() - i,
    {
        let ghost before = names;
        proof {
            lemma_deep_view_take_next(*items, i as int);
        }
        match &items[i] {
            TraitItem::Type(ident) => {
                let one = ident.clone();
                names.push(one);
                proof {
                    lemma_deep_view_push(before, names, one);
                }
            },
            TraitItem::Const(constant) => {
                if constant.default.is_none() {
                    let one = constant.ident.clone();
                    names.push(one);
                    proof {
                        lemma_deep_view_push(before, names, one);
                    }
                }
            },
            _ => {},
        }
        i += 1;
    }
    proof {
        lemma_deep_view_take_all(*items);
    }
    names
}

/// Copies the constants for which the interface provides a value.
fn copy_consts(items: &Vec<TraitItem>) -> (r: Vec<ImplItemConst>)
    ensures
        r.deep_view() == impl_consts(items.deep_view()),
{
    let mut consts: Vec<ImplItemConst> = Vec::new();
    let mut i: usize = 0;
    proof {
        lemma_deep_view_entries(*items);
        lemma_deep_view_entries(consts);
        assert(consts.deep_view() =~= impl_consts(items.deep_view().take(0)));
    }
    while i < items.len()
        invariant
            i <= items.len(),
            consts.deep_view() == impl_consts(items.deep_view().take(i as int)),
        decreases items.len() - i,
    {
        let ghost before = consts;
        proof {
            lemma_deep_view_take_next(*items, i as int);
        }
        match &items[i] {
            TraitItem::Const(constant) => {
                match &constant.default {
                    Some(expr) => {
                        let one = ImplItemConst {
                            attrs: clone_vec(&constant.attrs),
                            ident: constant.ident.clone(),
                            ty: constant.ty.clone(),
                            expr: expr.clone(),
                        };
                        consts.push(one);
                        proof {
                            lemma_deep_view_push(before, consts, one);
                        }
                    },
                    None => {},
                }
            },
            _ => {},
        }
        i += 1;
    }
    proof {
        lemma_deep_view_take_all(*items);
    }
    consts
}

/// Implements the interface for the union, and generates the union's conversions unless
/// the registry remembers that they were generated before; the registry remembers it from
/// now on.
///
/// What comes back is, in this order: the conversions into the union, the extractions from
/// it, and the implementation of the interface. The implementation holds the constants for
/// which the interface provides a value, and one forwarding method for each method of the
/// interface that can be forwarded. It is generated whatever the interface holds: an item
/// that cannot be forwarded is passed over without effect on the others.
pub fn add_enum_impls(
    registry: &mut Registry,
    enum_def: EnumDispatchItem,
    traitdef: ItemTrait,
) -> (r: Expansion)
    ensures
        r@ == expansion(
            enum_def@,
            traitdef@,
            old(registry)@.has_conversions(enum_def@.ident, enum_def@.generics.arity()),
        ),
        final(registry)@ == old(registry)@.with_conversions(
            enum_def@.ident,
            enum_def@.generics.arity(),
        ),
{
    let traitname = &traitdef.ident;
    let traitfns = &traitdef.items;
    let enumname = &enum_def.ident;
    let variants = &enum_def.variants;
    let (_, trait_type_generics, _) = traitdef.generics.split_for_impl();
    let unresolved = collect_unresolved(traitfns);

    let ghost items = traitfns.deep_view();
    let mut methods: Vec<ImplItemMethod> = Vec::new();
    let mut i: usize = 0;
    proof {
        lemma_deep_view_entries(*traitfns);
        lemma_deep_view_entries(methods);
        assert(methods.deep_view() =~= impl_methods(
            items.take(0),
            unresolved.deep_view(),
            traitdef@.generics,
            traitname@,
            enumname@,
            variants.deep_view(),
        ));
    }
    while i < traitfns.len()
        invariant
            i <= traitfns.len(),
            items == traitfns.deep_view(),
            methods.deep_view() == impl_methods(
                items.take(i as int),
                unresolved.deep_view(),
                traitdef@.generics,
                traitname@,
                enumname@,
                variants.deep_view(),
            ),
        decreases traitfns.len() - i,
    {
        let ghost before = methods;
        proof {
            lemma_deep_view_take_next(*traitfns, i as int);
        }
        match create_trait_match(
            &traitfns[i],
            &unresolved,
            &traitdef.generics,
            traitname,
            enumname,
            variants,
        ) {
            Some(method) => {
                methods.push(method);
                proof {
                    lemma_deep_view_push(before, methods, method);
                }
            },
            None => {},
        }
        i += 1;
    }
    proof {
        lemma_deep_view_take_all(*traitfns);
    }
    let trait_impl = ItemImpl {
        unsafety: traitdef.unsafety,
        target: target_of(enumname, &enum_def.generics),
        trait_name: traitname.clone(),
        trait_generics: trait_type_generics,
        consts: copy_consts(traitfns),
        methods,
    };

    // The conversions are generated once for each union, however many interfaces it is
    // paired with.
    let arity = enum_def.generics.type_params_count();
    if conversion_impls_def_by_enum(registry, enumname, arity) {
        let from_impls: Vec<FromImpl> = Vec::new();
        let try_into_impls: Vec<TryIntoImpl> = Vec::new();
        proof {
            lemma_deep_view_entries(from_impls);
            lemma_deep_view_entries(try_into_impls);
            assert(from_impls.deep_view() =~= Seq::<FromImplView>::empty());
            assert(try_into_impls.deep_view() =~= Seq::<TryIntoImplView>::empty());
            assert(registry@.conversion_impls =~= registry@.conversion_impls.insert(
                (enumname@, arity as nat),
            ));
        }
        Expansion { from_impls, try_into_impls, trait_impl }
    } else {
        let from_impls = generate_from_impls(enumname, variants, &enum_def.generics);
        let try_into_impls = generate_try_into_impls(enumname, variants, &enum_def.generics);
        cache_enum_conversion_impls_defined(registry, enumname.clone(), arity);
        Expansion { from_impls, try_into_impls, trait_impl }
    }
}

/// Every forwarding method has the signature of a forwarded item, and is marked for
/// inlining; there are no more forwarding methods than items.
pub proof fn lemma_impl_methods_are_forwarded(
    items: Seq<TraitItemView>,
    unresolved: Seq<Seq<char>>,
    trait_generics: GenericsView,
    trait_name: Seq<char>,
    enum_name: Seq<char>,
    variants: Seq<EnumDispatchVariantView>,
)
    ensures
        impl_methods(items, unresolved, trait_generics, trait_name, enum_name, variants).len()
            <= items.len(),
        forall|i: int|
            0 <= i < impl_methods(
                items,
                unresolved,
                trait_generics,
                trait_name,
                enum_name,
                variants,
            ).len() ==> {
                let method = #[trigger] impl_methods(
                    items,
                    unresolved,
                    trait_generics,
                    trait_name,
                    enum_name,
                    variants,
                )[i];
                &&& callable(method.sig)
                &&& !depends_on(method.sig, unresolved)
                &&& method.attrs.len() > 0
                &&& method.attrs.last() == inline_attribute()
                &&& method.body.arms.len() == variants.len()
            },
    decreases items.len(),
{
    if items.len() > 0 {
        let front = items.drop_last();
        lemma_impl_methods_are_forwarded(
            front,
            unresolved,
            trait_generics,
            trait_name,
            enum_name,
            variants,
        );
        let before = impl_methods(front, unresolved, trait_generics, trait_name, enum_name, variants);
        let methods = impl_methods(items, unresolved, trait_generics, trait_name, enum_name, variants);
        assert forall|i: int| 0 <= i < methods.len() implies {
            let method = #[trigger] methods[i];
            &&& callable(method.sig)
            &&& !depends_on(method.sig, unresolved)
            &&& method.attrs.len() > 0
            &&& method.attrs.last() == inline_attribute()
            &&& method.body.arms.len() == variants.len()
        } by {
            if i < before.len() {
                assert(methods[i] == before[i]);
            }
        }
    }
}

/// Every item of the interface that is forwarded has its forwarding method in what is
/// generated.
pub proof fn lemma_forwarded_items_are_implemented(
    items: Seq<TraitItemView>,
    unresolved: Seq<Seq<char>>,
    trait_generics: GenericsView,
    trait_name: Seq<char>,
    enum_name: Seq<char>,
    variants: Seq<EnumDispatchVariantView>,
    at: int,
)
    requires
        0 <= at < items.len(),
        forwarded(items[at], unresolved),
    ensures
        impl_methods(items, unresolved, trait_generics, trait_name, enum_name, variants).contains(
            forwarding_method(items[at]->Method_0, trait_generics, trait_name, enum_name, variants),
        ),
    decreases items.len(),
{
    let front = items.drop_last();
    let before = impl_methods(front, unresolved, trait_generics, trait_name, enum_name, variants);
    let methods = impl_methods(items, unresolved, trait_generics, trait_name, enum_name, variants);
    let wanted = forwarding_method(
        items[at]->Method_0,
        trait_generics,
        trait_name,
        enum_name,
        variants,
    );
    if at == items.len() - 1 {
        assert(methods == before.push(wanted));
        assert(methods[before.len() as int] == wanted);
    } else {
        assert(front[at] == items[at]);
        lemma_forwarded_items_are_implemented(
            front,
            unresolved,
            trait_generics,
            trait_name,
            enum_name,
            variants,
            at,
        );
        let i = choose|i: int| 0 <= i < before.len() && before[i] == wanted;
        if forwarded(items.last(), unresolved) {
            assert(methods[i] == before[i]);
        }
    }
}

/// A static method of an interface never shows in what is generated, whatever the union:
/// every method of a forwarding implementation takes `self`, and hands on each of its
/// parameters by name.
pub proof fn lemma_static_methods_never_forwarded(
    enum_def: EnumDispatchItemView,
    traitdef: ItemTraitView,
    already: bool,
)
    ensures
        forall|i: int|
            0 <= i < expansion(enum_def, traitdef, already).trait_impl.methods.len() ==> {
                let method = #[trigger] expansion(enum_def, traitdef, already).trait_impl.methods[i];
                &&& method_type_of(method.sig.inputs) != MethodType::Static
                &&& callable(method.sig)
            },
{
    lemma_impl_methods_are_forwarded(
        traitdef.items,
        unresolved_items(traitdef.items),
        traitdef.generics,
        traitdef.ident,
        enum_def.ident,
        enum_def.variants,
    );
}

} // verus!
