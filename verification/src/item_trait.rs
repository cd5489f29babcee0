//! The declaration of an interface, as far as the generator reads it: its name, its generic
//! parameters, whether it is unsafe, and its items.

use vstd::prelude::*;
use vstd::string::*;

use crate::attribute::{Attribute, AttributeView};
use crate::generics::{Generics, GenericsView};
use crate::text::{join, joined, ToTokens};
use crate::views::{
    clone_vec, lemma_deep_view_entries, lemma_deep_view_push, lemma_deep_view_take_all,
    lemma_deep_view_take_next,
};

verus! {

/// One parameter of a method as it is declared.
pub enum FnArg {
    /// `self`, in one of its forms.
    Receiver {
        /// Whether `self` is taken by reference (`&self`, `&mut self`).
        reference: bool,
        /// Whether that reference is `&mut`.
        mutable: bool,
        /// The parameter as it was written.
        tokens: String,
    },
    /// Any other parameter.
    Typed {
        /// The name that the parameter binds, where its pattern is a plain name.
        ident: Option<String>,
        /// The parameter as it was written, pattern and type.
        tokens: String,
    },
}

/// The mathematical value of a [`FnArg`].
pub enum FnArgView {
    Receiver { reference: bool, mutable: bool, tokens: Seq<char> },
    Typed { ident: Option<Seq<char>>, tokens: Seq<char> },
}

impl View for FnArg {
    type V = FnArgView;

    open spec fn view(&self) -> FnArgView {
        match self {
            FnArg::Receiver { reference, mutable, tokens } => FnArgView::Receiver {
                reference: *reference,
                mutable: *mutable,
                tokens: tokens@,
            },
            FnArg::Typed { ident, tokens } => FnArgView::Typed {
                ident: ident.deep_view(),
                tokens: tokens@,
            },
        }
    }
}

impl DeepView for FnArg {
    type V = FnArgView;

    open spec fn deep_view(&self) -> FnArgView {
        self@
    }
}

impl FnArgView {
    /// The parameter as it was written.
    pub open spec fn tokens(self) -> Seq<char> {
        match self {
            FnArgView::Receiver { tokens, .. } => tokens,
            FnArgView::Typed { tokens, .. } => tokens,
        }
    }
}

/// The signature of a method.
pub struct Signature {
    /// What stands before `fn` (`unsafe`, `async`, ...); empty where nothing does.
    pub qualifiers: String,
    pub ident: String,
    pub generics: Generics,
    pub inputs: Vec<FnArg>,
    /// The arrow and the returned type; empty where the method returns nothing.
    pub output: String,
    /// The names of associated items that the signature refers to through `Self`.
    pub associated: Vec<String>,
}

/// The mathematical value of a [`Signature`].
pub struct SignatureView {
    pub qualifiers: Seq<char>,
    pub ident: Seq<char>,
    pub generics: GenericsView,
    pub inputs: Seq<FnArgView>,
    pub output: Seq<char>,
    pub associated: Seq<Seq<char>>,
}

impl View for Signature {
    type V = SignatureView;

    open spec fn view(&self) -> SignatureView {
        SignatureView {
            qualifiers: self.qualifiers@,
            ident: self.ident@,
            generics: self.generics@,
            inputs: self.inputs.deep_view(),
            output: self.output@,
            associated: self.associated.deep_view(),
        }
    }
}

impl DeepView for Signature {
    type V = SignatureView;

    open spec fn deep_view(&self) -> SignatureView {
        self@
    }
}

impl SignatureView {
    /// The signature as source text.
    pub open spec fn text(self) -> Seq<char> {
        self.qualifiers + " fn "@ + self.ident + self.generics.declared() + "("@ + joined(
            self.inputs.map_values(|arg: FnArgView| arg.tokens()),
            ", "@,
        ) + ") "@ + self.output + " "@ + self.generics.where_clause
    }
}

/// A method of an interface.
pub struct TraitItemMethod {
    pub attrs: Vec<Attribute>,
    pub sig: Signature,
}

/// The mathematical value of a [`TraitItemMethod`].
pub struct TraitItemMethodView {
    pub attrs: Seq<AttributeView>,
    pub sig: SignatureView,
}

impl View for TraitItemMethod {
    type V = TraitItemMethodView;

    open spec fn view(&self) -> TraitItemMethodView {
        TraitItemMethodView { attrs: self.attrs.deep_view(), sig: self.sig@ }
    }
}

impl DeepView for TraitItemMethod {
    type V = TraitItemMethodView;

    open spec fn deep_view(&self) -> TraitItemMethodView {
        self@
    }
}

/// An associated constant of an interface.
pub struct TraitItemConst {
    pub attrs: Vec<Attribute>,
    pub ident: String,
    pub ty: String,
    /// The value that the interface provides, where it provides one.
    pub default: Option<String>,
}

/// The mathematical value of a [`TraitItemConst`].
pub struct TraitItemConstView {
    pub attrs: Seq<AttributeView>,
    pub ident: Seq<char>,
    pub ty: Seq<char>,
    pub default: Option<Seq<char>>,
}

impl View for TraitItemConst {
    type V = TraitItemConstView;

    open spec fn view(&self) -> TraitItemConstView {
        TraitItemConstView {
            attrs: self.attrs.deep_view(),
            ident: self.ident@,
            ty: self.ty@,
            default: self.default.deep_view(),
        }
    }
}

impl DeepView for TraitItemConst {
    type V = TraitItemConstView;

    open spec fn deep_view(&self) -> TraitItemConstView {
        self@
    }
}

/// One item of an interface.
pub enum TraitItem {
    /// A method.
    Method(TraitItemMethod),
    /// An associated constant.
    Const(TraitItemConst),
    /// An associated type, by its name.
    Type(String),
    /// Anything else.
    Other,
}

/// The mathematical value of a [`TraitItem`].
pub enum TraitItemView {
    Method(TraitItemMethodView),
    Const(TraitItemConstView),
    Type(Seq<char>),
    Other,
}

impl View for TraitItem {
    type V = TraitItemView;

    open spec fn view(&self) -> TraitItemView {
        match self {
            TraitItem::Method(method) => TraitItemView::Method(method@),
            TraitItem::Const(constant) => TraitItemView::Const(constant@),
            TraitItem::Type(ident) => TraitItemView::Type(ident@),
            TraitItem::Other => TraitItemView::Other,
        }
    }
}

impl DeepView for TraitItem {
    type V = TraitItemView;

    open spec fn deep_view(&self) -> TraitItemView {
        self@
    }
}

/// The declaration of an interface.
pub struct ItemTrait {
    pub ident: String,
    pub generics: Generics,
    /// Whether the interface is declared `unsafe`.
    pub unsafety: bool,
    pub items: Vec<TraitItem>,
}

/// The mathematical value of an [`ItemTrait`].
pub struct ItemTraitView {
    pub ident: Seq<char>,
    pub generics: GenericsView,
    pub unsafety: bool,
    pub items: Seq<TraitItemView>,
}

impl View for ItemTrait {
    type V = ItemTraitView;

    open spec fn view(&self) -> ItemTraitView {
        ItemTraitView {
            ident: self.ident@,
            generics: self.generics@,
            unsafety: self.unsafety,
            items: self.items.deep_view(),
        }
    }
}

impl DeepView for ItemTrait {
    type V = ItemTraitView;

    open spec fn deep_view(&self) -> ItemTraitView {
        self@
    }
}

/// A copy of an optional text.
pub fn clone_option(text: &Option<String>) -> (r: Option<String>)
    ensures
        r.deep_view() == text.deep_view(),
{
    match text {
        Some(text) => Some(text.clone()),
        None => None,
    }
}

impl Clone for FnArg {
    fn clone(&self) -> (r: Self)
        ensures
            r@ == self@,
    {
        match self {
            FnArg::Receiver { reference, mutable, tokens } => FnArg::Receiver {
                reference: *reference,
                mutable: *mutable,
                tokens: tokens.clone(),
            },
            FnArg::Typed { ident, tokens } => FnArg::Typed {
                ident: clone_option(ident),
                tokens: tokens.clone(),
            },
        }
    }
}

impl Clone for Signature {
    fn clone(&self) -> (r: Self)
        ensures
            r@ == self@,
    {
        Signature {
            qualifiers: self.qualifiers.clone(),
            ident: self.ident.clone(),
            generics: self.generics.clone(),
            inputs: clone_vec(&self.inputs),
            output: self.output.clone(),
            associated: clone_vec(&self.associated),
        }
    }
}

impl Clone for TraitItemMethod {
    fn clone(&self) -> (r: Self)
        ensures
            r@ == self@,
    {
        TraitItemMethod { attrs: clone_vec(&self.attrs), sig: self.sig.clone() }
    }
}

impl Clone for TraitItemConst {
    fn clone(&self) -> (r: Self)
        ensures
            r@ == self@,
    {
        TraitItemConst {
            attrs: clone_vec(&self.attrs),
            ident: self.ident.clone(),
            ty: self.ty.clone(),
            default: clone_option(&self.default),
        }
    }
}

impl Clone for TraitItem {
    fn clone(&self) -> (r: Self)
        ensures
            r@ == self@,
    {
        match self {
            TraitItem::Method(method) => TraitItem::Method(method.clone()),
            TraitItem::Const(constant) => TraitItem::Const(constant.clone()),
            TraitItem::Type(ident) => TraitItem::Type(ident.clone()),
            TraitItem::Other => TraitItem::Other,
        }
    }
}

impl Clone for ItemTrait {
    fn clone(&self) -> (r: Self)
        ensures
            r@ == self@,
    {
        ItemTrait {
            ident: self.ident.clone(),
            generics: self.generics.clone(),
            unsafety: self.unsafety,
            items: clone_vec(&self.items),
        }
    }
}

impl ToTokens for Signature {
    open spec fn text_of(value: SignatureView) -> Seq<char> {
        value.text()
    }

    fn to_tokens(&self, tokens: &mut String) {
        let mut inputs: Vec<String> = Vec::new();
        let mut i: usize = 0;
        let ghost written = |arg: FnArgView| arg.tokens();
        proof {
            lemma_deep_view_entries(self.inputs);
            lemma_deep_view_entries(inputs);
            assert(inputs.deep_view() =~= self@.inputs.take(0).map_values(written));
        }
        while i < self.inputs.len()
            invariant
                i <= self.inputs.len(),
                written == (|arg: FnArgView| arg.tokens()),
                inputs.deep_view() == self@.inputs.take(i as int).map_values(written),
            decreases self.inputs.len() - i,
        {
            let ghost before = inputs;
            let one = match &self.inputs[i] {
                FnArg::Receiver { tokens, .. } => tokens.clone(),
                FnArg::Typed { tokens, .. } => tokens.clone(),
            };
            inputs.push(one);
            proof {
                lemma_deep_view_take_next(self.inputs, i as int);
                lemma_deep_view_push(before, inputs, one);
                assert(self@.inputs.take(i + 1).map_values(written) =~= self@.inputs.take(
                    i as int,
                ).map_values(written).push(one@));
            }
            i += 1;
        }
        proof {
            lemma_deep_view_take_all(self.inputs);
        }
        let mut text = self.qualifiers.clone();
        text.append(" fn ");
        text.append(self.ident.as_str());
        self.generics.to_tokens(&mut text);
        text.append("(");
        text.append(join(&inputs, ", ").as_str());
        text.append(") ");
        text.append(self.output.as_str());
        text.append(" ");
        text.append(self.generics.where_clause.as_str());
        tokens.append(text.as_str());
        proof {
            assert(inputs.deep_view() == self@.inputs.map_values(written));
            assert(text@ =~= self@.text());
            assert(Self::text_of(self.deep_view()) == self@.text());
        }
    }
}

} // verus!
