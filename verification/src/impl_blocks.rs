//! The implementation blocks that are generated for a union: the conversions between the
//! union and the types it wraps, and the implementation of an interface that forwards each
//! call to the wrapped value.

use vstd::prelude::*;
use vstd::string::*;

use crate::attribute::{attributes_text, attributes_to_tokens, Attribute, AttributeView};
use crate::item_trait::{Signature, SignatureView};
use crate::text::{append_all, join, joined, texts, ToTokens};
use crate::views::clone_vec;

verus! {

/// What every implementation block for one union starts from: the union's name and the
/// three forms of its generic parameters.
pub struct ImplTarget {
    /// The generic parameters as they follow `impl`.
    pub impl_generics: String,
    pub enum_name: String,
    /// The generic parameters as they follow the union's name.
    pub type_generics: String,
    pub where_clause: String,
}

/// The mathematical value of an [`ImplTarget`].
pub struct ImplTargetView {
    pub impl_generics: Seq<char>,
    pub enum_name: Seq<char>,
    pub type_generics: Seq<char>,
    pub where_clause: Seq<char>,
}

impl View for ImplTarget {
    type V = ImplTargetView;

    open spec fn view(&self) -> ImplTargetView {
        ImplTargetView {
            impl_generics: self.impl_generics@,
            enum_name: self.enum_name@,
            type_generics: self.type_generics@,
            where_clause: self.where_clause@,
        }
    }
}

impl Clone for ImplTarget {
    fn clone(&self) -> (r: Self)
        ensures
            r@ == self@,
    {
        ImplTarget {
            impl_generics: self.impl_generics.clone(),
            enum_name: self.enum_name.clone(),
            type_generics: self.type_generics.clone(),
            where_clause: self.where_clause.clone(),
        }
    }
}

impl ImplTargetView {
    /// The union as a type: its name and its generic arguments.
    pub open spec fn self_type(self) -> Seq<char> {
        self.enum_name + self.type_generics
    }

    /// The header of a block that implements `implemented` for the union, up to its brace.
    pub open spec fn header(self, implemented: Seq<char>) -> Seq<char> {
        "impl"@ + self.impl_generics + " "@ + implemented + " for "@ + self.self_type() + " "@
            + self.where_clause + " { "@
    }
}

impl ImplTarget {
    /// Appends to `tokens` the header of a block that implements `implemented`.
    pub fn header_to_tokens(&self, implemented: &str, tokens: &mut String)
        ensures
            final(tokens)@ == old(tokens)@ + self@.header(implemented@),
    {
        let mut text = String::from_str("impl");
        text.append(self.impl_generics.as_str());
        text.append(" ");
        text.append(implemented);
        text.append(" for ");
        let ghost before = text@;
        text.append(self.enum_name.as_str());
        text.append(self.type_generics.as_str());
        proof {
            assert(text@ =~= before + self@.self_type());
        }
        text.append(" ");
        text.append(self.where_clause.as_str());
        text.append(" { ");
        tokens.append(text.as_str());
    }
}

/// The conversion of a wrapped value into the union: it always succeeds and yields the
/// union value with the variant's tag.
pub struct FromImpl {
    /// The conditional-compilation markers of the variant.
    pub attrs: Vec<Attribute>,
    pub target: ImplTarget,
    pub variant_name: String,
    pub variant_type: String,
}

/// The mathematical value of a [`FromImpl`].
pub struct FromImplView {
    pub attrs: Seq<AttributeView>,
    pub target: ImplTargetView,
    pub variant_name: Seq<char>,
    pub variant_type: Seq<char>,
}

impl View for FromImpl {
    type V = FromImplView;

    open spec fn view(&self) -> FromImplView {
        FromImplView {
            attrs: self.attrs.deep_view(),
            target: self.target@,
            variant_name: self.variant_name@,
            variant_type: self.variant_type@,
        }
    }
}

impl DeepView for FromImpl {
    type V = FromImplView;

    open spec fn deep_view(&self) -> FromImplView {
        self@
    }
}

impl FromImplView {
    /// The block as source text.
    pub open spec fn text(self) -> Seq<char> {
        attributes_text(self.attrs) + self.target.header(
            "::core::convert::From<"@ + self.variant_type + ">"@,
        ) + "fn from(v: "@ + self.variant_type + ") -> "@ + self.target.self_type() + " { "@
            + self.target.enum_name + "::"@ + self.variant_name + "(v) } }"@
    }
}

impl ToTokens for FromImpl {
    open spec fn text_of(value: FromImplView) -> Seq<char> {
        value.text()
    }

    fn to_tokens(&self, tokens: &mut String) {
        let mut text = String::new();
        attributes_to_tokens(&self.attrs, &mut text);
        let mut implemented = String::from_str("::core::convert::From<");
        implemented.append(self.variant_type.as_str());
        implemented.append(">");
        self.target.header_to_tokens(implemented.as_str(), &mut text);
        text.append("fn from(v: ");
        text.append(self.variant_type.as_str());
        text.append(") -> ");
        let ghost before = text@;
        text.append(self.target.enum_name.as_str());
        text.append(self.target.type_generics.as_str());
        proof {
            assert(text@ =~= before + self@.target.self_type());
        }
        text.append(" { ");
        text.append(self.target.enum_name.as_str());
        text.append("::");
        text.append(self.variant_name.as_str());
        text.append("(v) } }");
        proof {
            assert(Seq::<char>::empty() + attributes_text(self@.attrs) =~= attributes_text(
                self@.attrs,
            ));
        }
        tokens.append(text.as_str());
    }
}

/// One failing arm of an extraction: the union holds another variant than the one asked
/// for, and the arm says which.
pub struct MismatchArm {
    /// The conditional-compilation markers of the variant that the arm matches.
    pub attrs: Vec<Attribute>,
    pub enum_name: String,
    /// The variant that the arm matches.
    pub variant_name: String,
    /// The error, which names the variant held and the variant asked for.
    pub message: String,
}

/// The mathematical value of a [`MismatchArm`].
pub struct MismatchArmView {
    pub attrs: Seq<AttributeView>,
    pub enum_name: Seq<char>,
    pub variant_name: Seq<char>,
    pub message: Seq<char>,
}

impl View for MismatchArm {
    type V = MismatchArmView;

    open spec fn view(&self) -> MismatchArmView {
        MismatchArmView {
            attrs: self.attrs.deep_view(),
            enum_name: self.enum_name@,
            variant_name: self.variant_name@,
            message: self.message@,
        }
    }
}

impl DeepView for MismatchArm {
    type V = MismatchArmView;

    open spec fn deep_view(&self) -> MismatchArmView {
        self@
    }
}

impl MismatchArmView {
    /// The arm as source text.
    pub open spec fn text(self) -> Seq<char> {
        attributes_text(self.attrs) + self.enum_name + "::"@ + self.variant_name
            + "(v) => { Err(\""@ + self.message + "\") }"@
    }
}

impl ToTokens for MismatchArm {
    open spec fn text_of(value: MismatchArmView) -> Seq<char> {
        value.text()
    }

    fn to_tokens(&self, tokens: &mut String) {
        let mut text = String::new();
        attributes_to_tokens(&self.attrs, &mut text);
        text.append(self.enum_name.as_str());
        text.append("::");
        text.append(self.variant_name.as_str());
        text.append("(v) => { Err(\"");
        text.append(self.message.as_str());
        text.append("\") }");
        proof {
            assert(Seq::<char>::empty() + attributes_text(self@.attrs) =~= attributes_text(
                self@.attrs,
            ));
        }
        tokens.append(text.as_str());
    }
}

/// The extraction of a wrapped value from the union: it succeeds where the union holds the
/// variant asked for, and fails through one of its mismatch arms where it holds another.
pub struct TryIntoImpl {
    /// The conditional-compilation markers of the variant.
    pub attrs: Vec<Attribute>,
    pub target: ImplTarget,
    pub variant_name: String,
    pub variant_type: String,
    /// One arm for each other variant of the union, in the union's order.
    pub mismatches: Vec<MismatchArm>,
}

/// The mathematical value of a [`TryIntoImpl`].
pub struct TryIntoImplView {
    pub attrs: Seq<AttributeView>,
    pub target: ImplTargetView,
    pub variant_name: Seq<char>,
    pub variant_type: Seq<char>,
    pub mismatches: Seq<MismatchArmView>,
}

impl View for TryIntoImpl {
    type V = TryIntoImplView;

    open spec fn view(&self) -> TryIntoImplView {
        TryIntoImplView {
            attrs: self.attrs.deep_view(),
            target: self.target@,
            variant_name: self.variant_name@,
            variant_type: self.variant_type@,
            mismatches: self.mismatches.deep_view(),
        }
    }
}

impl DeepView for TryIntoImpl {
    type V = TryIntoImplView;

    open spec fn deep_view(&self) -> TryIntoImplView {
        self@
    }
}

impl TryIntoImplView {
    /// The block as source text.
    pub open spec fn text(self) -> Seq<char> {
        attributes_text(self.attrs) + self.target.header(
            "::core::convert::TryInto<"@ + self.variant_type + ">"@,
        ) + "type Error = &'static str; fn try_into(self) -> ::core::result::Result<"@
            + self.variant_type + ", <Self as ::core::convert::TryInto<"@ + self.variant_type
            + ">>::Error> { match self { "@ + self.target.enum_name + "::"@ + self.variant_name
            + "(v) => { Ok(v) }, "@ + texts::<MismatchArm>(self.mismatches, ", "@) + "} } }"@
    }
}

impl ToTokens for TryIntoImpl {
    open spec fn text_of(value: TryIntoImplView) -> Seq<char> {
        value.text()
    }

    fn to_tokens(&self, tokens: &mut String) {
        let mut text = String::new();
        attributes_to_tokens(&self.attrs, &mut text);
        let mut implemented = String::from_str("::core::convert::TryInto<");
        implemented.append(self.variant_type.as_str());
        implemented.append(">");
        self.target.header_to_tokens(implemented.as_str(), &mut text);
        text.append("type Error = &'static str; fn try_into(self) -> ::core::result::Result<");
        text.append(self.variant_type.as_str());
        text.append(", <Self as ::core::convert::TryInto<");
        text.append(self.variant_type.as_str());
        text.append(">>::Error> { match self { ");
        text.append(self.target.enum_name.as_str());
        text.append("::");
        text.append(self.variant_name.as_str());
        text.append("(v) => { Ok(v) }, ");
        append_all(&self.mismatches, ", ", &mut text);
        text.append("} } }");
        proof {
            assert(Seq::<char>::empty() + attributes_text(self@.attrs) =~= attributes_text(
                self@.attrs,
            ));
        }
        tokens.append(text.as_str());
    }
}

/// A call of a method of the interface, written with the interface's name in front and the
/// receiver as the first argument.
pub struct TraitFnCall {
    pub trait_name: String,
    /// The interface's generic arguments as a path in an expression takes them.
    pub trait_turbofish: String,
    pub method_name: String,
    /// The method's generic arguments as a path in an expression takes them.
    pub method_turbofish: String,
    /// The arguments: the receiver first, then the method's parameters in their order.
    pub args: Vec<String>,
}

/// The mathematical value of a [`TraitFnCall`].
pub struct TraitFnCallView {
    pub trait_name: Seq<char>,
    pub trait_turbofish: Seq<char>,
    pub method_name: Seq<char>,
    pub method_turbofish: Seq<char>,
    pub args: Seq<Seq<char>>,
}

impl View for TraitFnCall {
    type V = TraitFnCallView;

    open spec fn view(&self) -> TraitFnCallView {
        TraitFnCallView {
            trait_name: self.trait_name@,
            trait_turbofish: self.trait_turbofish@,
            method_name: self.method_name@,
            method_turbofish: self.method_turbofish@,
            args: self.args.deep_view(),
        }
    }
}

impl Clone for TraitFnCall {
    fn clone(&self) -> (r: Self)
        ensures
            r@ == self@,
    {
        TraitFnCall {
            trait_name: self.trait_name.clone(),
            trait_turbofish: self.trait_turbofish.clone(),
            method_name: self.method_name.clone(),
            method_turbofish: self.method_turbofish.clone(),
            args: clone_vec(&self.args),
        }
    }
}

impl TraitFnCallView {
    /// The call as source text.
    pub open spec fn text(self) -> Seq<char> {
        self.trait_name + self.trait_turbofish + "::"@ + self.method_name + self.method_turbofish
            + "("@ + joined(self.args, ", "@) + ")"@
    }
}

impl TraitFnCall {
    /// Appends the call's source text to `tokens`.
    pub fn to_tokens(&self, tokens: &mut String)
        ensures
            final(tokens)@ == old(tokens)@ + self@.text(),
    {
        let mut text = self.trait_name.clone();
        text.append(self.trait_turbofish.as_str());
        text.append("::");
        text.append(self.method_name.as_str());
        text.append(self.method_turbofish.as_str());
        text.append("(");
        text.append(join(&self.args, ", ").as_str());
        text.append(")");
        tokens.append(text.as_str());
    }
}

/// One arm of a forwarding method: it matches one variant, binds the wrapped value, and
/// calls the interface's method on it.
pub struct MatchArm {
    /// The conditional-compilation markers of the variant.
    pub attrs: Vec<Attribute>,
    pub enum_name: String,
    pub variant_name: String,
    /// Whether the call goes through one dereference of the wrapped value.
    pub deref: bool,
    pub body: TraitFnCall,
}

/// The mathematical value of a [`MatchArm`].
pub struct MatchArmView {
    pub attrs: Seq<AttributeView>,
    pub enum_name: Seq<char>,
    pub variant_name: Seq<char>,
    pub deref: bool,
    pub body: TraitFnCallView,
}

impl View for MatchArm {
    type V = MatchArmView;

    open spec fn view(&self) -> MatchArmView {
        MatchArmView {
            attrs: self.attrs.deep_view(),
            enum_name: self.enum_name@,
            variant_name: self.variant_name@,
            deref: self.deref,
            body: self.body@,
        }
    }
}

impl DeepView for MatchArm {
    type V = MatchArmView;

    open spec fn deep_view(&self) -> MatchArmView {
        self@
    }
}

impl MatchArmView {
    /// The arm as source text.
    pub open spec fn text(self) -> Seq<char> {
        attributes_text(self.attrs) + self.enum_name + "::"@ + self.variant_name + "(inner) => "@
            + self.body.text()
    }
}

impl ToTokens for MatchArm {
    open spec fn text_of(value: MatchArmView) -> Seq<char> {
        value.text()
    }

    fn to_tokens(&self, tokens: &mut String) {
        let mut text = String::new();
        attributes_to_tokens(&self.attrs, &mut text);
        text.append(self.enum_name.as_str());
        text.append("::");
        text.append(self.variant_name.as_str());
        text.append("(inner) => ");
        self.body.to_tokens(&mut text);
        proof {
            assert(Seq::<char>::empty() + attributes_text(self@.attrs) =~= attributes_text(
                self@.attrs,
            ));
        }
        tokens.append(text.as_str());
    }
}

/// The body of a forwarding method: a match on the union value with one arm per variant.
pub struct MatchExpr {
    pub arms: Vec<MatchArm>,
}

/// The mathematical value of a [`MatchExpr`].
pub struct MatchExprView {
    pub arms: Seq<MatchArmView>,
}

impl View for MatchExpr {
    type V = MatchExprView;

    open spec fn view(&self) -> MatchExprView {
        MatchExprView { arms: self.arms.deep_view() }
    }
}

impl MatchExprView {
    /// The expression as source text.
    pub open spec fn text(self) -> Seq<char> {
        "match self { "@ + texts::<MatchArm>(self.arms, ", "@) + "}"@
    }
}

impl MatchExpr {
    /// Appends the expression's source text to `tokens`.
    pub fn to_tokens(&self, tokens: &mut String)
        ensures
            final(tokens)@ == old(tokens)@ + self@.text(),
    {
        let mut text = String::from_str("match self { ");
        append_all(&self.arms, ", ", &mut text);
        text.append("}");
        tokens.append(text.as_str());
    }
}

/// A method of the forwarding implementation.
pub struct ImplItemMethod {
    /// The attributes of the interface's method, with `#[inline]` added last.
    pub attrs: Vec<Attribute>,
    /// The signature of the interface's method, unchanged.
    pub sig: Signature,
    pub body: MatchExpr,
}

/// The mathematical value of an [`ImplItemMethod`].
pub struct ImplItemMethodView {
    pub attrs: Seq<AttributeView>,
    pub sig: SignatureView,
    pub body: MatchExprView,
}

impl View for ImplItemMethod {
    type V = ImplItemMethodView;

    open spec fn view(&self) -> ImplItemMethodView {
        ImplItemMethodView { attrs: self.attrs.deep_view(), sig: self.sig@, body: self.body@ }
    }
}

impl DeepView for ImplItemMethod {
    type V = ImplItemMethodView;

    open spec fn deep_view(&self) -> ImplItemMethodView {
        self@
    }
}

impl ImplItemMethodView {
    /// The method as source text.
    pub open spec fn text(self) -> Seq<char> {
        attributes_text(self.attrs) + self.sig.text() + " { "@ + self.body.text() + " }"@
    }
}

impl ToTokens for ImplItemMethod {
    open spec fn text_of(value: ImplItemMethodView) -> Seq<char> {
        value.text()
    }

    fn to_tokens(&self, tokens: &mut String) {
        let mut text = String::new();
        attributes_to_tokens(&self.attrs, &mut text);
        self.sig.to_tokens(&mut text);
        text.append(" { ");
        self.body.to_tokens(&mut text);
        text.append(" }");
        proof {
            assert(Seq::<char>::empty() + attributes_text(self@.attrs) =~= attributes_text(
                self@.attrs,
            ));
        }
        tokens.append(text.as_str());
    }
}

/// An associated constant of the forwarding implementation.
pub struct ImplItemConst {
    pub attrs: Vec<Attribute>,
    pub ident: String,
    pub ty: String,
    /// The value, as the interface provides it.
    pub expr: String,
}

/// The mathematical value of an [`ImplItemConst`].
pub struct ImplItemConstView {
    pub attrs: Seq<AttributeView>,
    pub ident: Seq<char>,
    pub ty: Seq<char>,
    pub expr: Seq<char>,
}

impl View for ImplItemConst {
    type V = ImplItemConstView;

    open spec fn view(&self) -> ImplItemConstView {
        ImplItemConstView {
            attrs: self.attrs.deep_view(),
            ident: self.ident@,
            ty: self.ty@,
            expr: self.expr@,
        }
    }
}

impl DeepView for ImplItemConst {
    type V = ImplItemConstView;

    open spec fn deep_view(&self) -> ImplItemConstView {
        self@
    }
}

impl ImplItemConstView {
    /// The constant as source text.
    pub open spec fn text(self) -> Seq<char> {
        attributes_text(self.attrs) + "const "@ + self.ident + ": "@ + self.ty + " = "@
            + self.expr + ";"@
    }
}

impl ToTokens for ImplItemConst {
    open spec fn text_of(value: ImplItemConstView) -> Seq<char> {
        value.text()
    }

    fn to_tokens(&self, tokens: &mut String) {
        let mut text = String::new();
        attributes_to_tokens(&self.attrs, &mut text);
        text.append("const ");
        text.append(self.ident.as_str());
        text.append(": ");
        text.append(self.ty.as_str());
        text.append(" = ");
        text.append(self.expr.as_str());
        text.append(";");
        proof {
            assert(Seq::<char>::empty() + attributes_text(self@.attrs) =~= attributes_text(
                self@.attrs,
            ));
        }
        tokens.append(text.as_str());
    }
}

/// The implementation of an interface for a union.
pub struct ItemImpl {
    /// Whether the interface, and with it the implementation, is unsafe.
    pub unsafety: bool,
    pub target: ImplTarget,
    pub trait_name: String,
    /// The interface's generic arguments as they follow its name.
    pub trait_generics: String,
    /// The constants for which the interface provides a value.
    pub consts: Vec<ImplItemConst>,
    /// The forwarding methods.
    pub methods: Vec<ImplItemMethod>,
}

/// The mathematical value of an [`ItemImpl`].
pub struct ItemImplView {
    pub unsafety: bool,
    pub target: ImplTargetView,
    pub trait_name: Seq<char>,
    pub trait_generics: Seq<char>,
    pub consts: Seq<ImplItemConstView>,
    pub methods: Seq<ImplItemMethodView>,
}

impl View for ItemImpl {
    type V = ItemImplView;

    open spec fn view(&self) -> ItemImplView {
        ItemImplView {
            unsafety: self.unsafety,
            target: self.target@,
            trait_name: self.trait_name@,
            trait_generics: self.trait_generics@,
            consts: self.consts.deep_view(),
            methods: self.methods.deep_view(),
        }
    }
}

impl ItemImplView {
    /// The block as source text.
    pub open spec fn text(self) -> Seq<char> {
        (if self.unsafety {
            "unsafe "@
        } else {
            Seq::empty()
        }) + self.target.header(self.trait_name + self.trait_generics) + texts::<ImplItemConst>(
            self.consts,
            " "@,
        ) + texts::<ImplItemMethod>(self.methods, " "@) + "}"@
    }
}

impl ItemImpl {
    /// Appends the block's source text to `tokens`.
    pub fn to_tokens(&self, tokens: &mut String)
        ensures
            final(tokens)@ == old(tokens)@ + self@.text(),
    {
        let mut text = String::new();
        if self.unsafety {
            text.append("unsafe ");
        }
        let mut implemented = self.trait_name.clone();
        implemented.append(self.trait_generics.as_str());
        let ghost before = text@;
        self.target.header_to_tokens(implemented.as_str(), &mut text);
        append_all(&self.consts, " ", &mut text);
        append_all(&self.methods, " ", &mut text);
        text.append("}");
        proof {
            assert(Seq::<char>::empty() + "unsafe "@ =~= "unsafe "@);
            assert(before =~= if self.unsafety {
                "unsafe "@
            } else {
                Seq::empty()
            });
        }
        tokens.append(text.as_str());
    }
}

/// Everything that is generated for one pairing of a union with an interface, in the order
/// in which it is written out: the conversions into the union, the extractions from it,
/// and the forwarding implementation.
pub struct Expansion {
    /// Empty where the conversions for this union were generated before.
    pub from_impls: Vec<FromImpl>,
    /// Empty where the conversions for this union were generated before.
    pub try_into_impls: Vec<TryIntoImpl>,
    pub trait_impl: ItemImpl,
}

/// The mathematical value of an [`Expansion`].
pub struct ExpansionView {
    pub from_impls: Seq<FromImplView>,
    pub try_into_impls: Seq<TryIntoImplView>,
    pub trait_impl: ItemImplView,
}

impl View for Expansion {
    type V = ExpansionView;

    open spec fn view(&self) -> ExpansionView {
        ExpansionView {
            from_impls: self.from_impls.deep_view(),
            try_into_impls: self.try_into_impls.deep_view(),
            trait_impl: self.trait_impl@,
        }
    }
}

impl DeepView for Expansion {
    type V = ExpansionView;

    open spec fn deep_view(&self) -> ExpansionView {
        self@
    }
}

impl ExpansionView {
    /// The generated code as source text.
    pub open spec fn text(self) -> Seq<char> {
        texts::<FromImpl>(self.from_impls, " "@) + texts::<TryIntoImpl>(self.try_into_impls, " "@)
            + self.trait_impl.text()
    }
}

impl ToTokens for Expansion {
    open spec fn text_of(value: ExpansionView) -> Seq<char> {
        value.text()
    }

    fn to_tokens(&self, tokens: &mut String) {
        let mut text = String::new();
        append_all(&self.from_impls, " ", &mut text);
        append_all(&self.try_into_impls, " ", &mut text);
        self.trait_impl.to_tokens(&mut text);
        proof {
            assert(Seq::<char>::empty() + texts::<FromImpl>(self@.from_impls, " "@) =~= texts::<
                FromImpl,
            >(self@.from_impls, " "@));
        }
        tokens.append(text.as_str());
    }
}

} // verus!
