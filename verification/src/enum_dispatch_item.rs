//! The declaration of a union: a name, generic parameters, and the variants in the order
//! in which they were written.
//!
//! It reads like an ordinary enum. The one difference lies in its variants, each of which
//! wraps exactly one type.

use vstd::prelude::*;
use vstd::string::*;

use crate::attribute::{attributes_text, attributes_to_tokens, Attribute, AttributeView};
use crate::enum_dispatch_variant::{
    EnumDispatchVariant, EnumDispatchVariantView, VariantError, VariantSyntax, VariantSyntaxView,
};
use crate::generics::{Generics, GenericsView};
use crate::text::{append_all, texts, ToTokens};
use crate::views::{clone_vec, lemma_deep_view_entries, lemma_deep_view_push};

verus! {

/// A union as it was written, before its variants are read.
pub struct ItemSyntax {
    pub attrs: Vec<Attribute>,
    pub vis: String,
    pub ident: String,
    pub generics: Generics,
    pub variants: Vec<VariantSyntax>,
}

/// The mathematical value of an [`ItemSyntax`].
pub struct ItemSyntaxView {
    pub attrs: Seq<AttributeView>,
    pub vis: Seq<char>,
    pub ident: Seq<char>,
    pub generics: GenericsView,
    pub variants: Seq<VariantSyntaxView>,
}

impl View for ItemSyntax {
    type V = ItemSyntaxView;

    open spec fn view(&self) -> ItemSyntaxView {
        ItemSyntaxView {
            attrs: self.attrs.deep_view(),
            vis: self.vis@,
            ident: self.ident@,
            generics: self.generics@,
            variants: self.variants.deep_view(),
        }
    }
}

/// Why a union was turned away: one of its variants was.
#[derive(Debug, PartialEq, Eq, Structural, Clone, Copy)]
pub struct ItemError {
    /// The position of the first variant that was turned away.
    pub variant: usize,
    /// Why that variant was turned away.
    pub error: VariantError,
}

/// The declaration of a union.
pub struct EnumDispatchItem {
    pub attrs: Vec<Attribute>,
    /// The visibility as it was written; empty where none was.
    pub vis: String,
    pub ident: String,
    pub generics: Generics,
    pub variants: Vec<EnumDispatchVariant>,
}

/// The mathematical value of an [`EnumDispatchItem`].
pub struct EnumDispatchItemView {
    pub attrs: Seq<AttributeView>,
    pub vis: Seq<char>,
    pub ident: Seq<char>,
    pub generics: GenericsView,
    pub variants: Seq<EnumDispatchVariantView>,
}

impl View for EnumDispatchItem {
    type V = EnumDispatchItemView;

    open spec fn view(&self) -> EnumDispatchItemView {
        EnumDispatchItemView {
            attrs: self.attrs.deep_view(),
            vis: self.vis@,
            ident: self.ident@,
            generics: self.generics@,
            variants: self.variants.deep_view(),
        }
    }
}

impl DeepView for EnumDispatchItem {
    type V = EnumDispatchItemView;

    open spec fn deep_view(&self) -> EnumDispatchItemView {
        self@
    }
}

impl ItemSyntaxView {
    /// Whether every variant has a shape that can be read.
    pub open spec fn well_shaped(self) -> bool {
        forall|i: int| 0 <= i < self.variants.len() ==> (#[trigger] self.variants[i]).well_shaped()
    }

    /// The declaration that a well-shaped input stands for.
    pub open spec fn parsed(self) -> EnumDispatchItemView {
        EnumDispatchItemView {
            attrs: self.attrs,
            vis: self.vis,
            ident: self.ident,
            generics: self.generics,
            variants: self.variants.map_values(|v: VariantSyntaxView| v.parsed()),
        }
    }

    /// Whether `error` names the first variant that is turned away, with its reason.
    pub open spec fn rejected_with(self, error: ItemError) -> bool {
        &&& error.variant < self.variants.len()
        &&& self.variants[error.variant as int].rejected_with(error.error)
        &&& forall|j: int| 0 <= j < error.variant ==> (#[trigger] self.variants[j]).well_shaped()
    }
}

/// The source text of a run of variants, each followed by a comma.
pub open spec fn variants_text(variants: Seq<EnumDispatchVariantView>) -> Seq<char> {
    texts::<EnumDispatchVariant>(variants, ", "@)
}

impl EnumDispatchItemView {
    /// The declaration as source text.
    pub open spec fn text(self) -> Seq<char> {
        attributes_text(self.attrs) + self.vis + " enum "@ + self.ident + self.generics.declared()
            + " "@ + self.generics.where_clause + " { "@ + variants_text(self.variants) + "}"@
    }
}

impl Clone for EnumDispatchItem {
    fn clone(&self) -> (r: Self)
        ensures
            r@ == self@,
    {
        EnumDispatchItem {
            attrs: clone_vec(&self.attrs),
            vis: self.vis.clone(),
            ident: self.ident.clone(),
            generics: self.generics.clone(),
            variants: clone_vec(&self.variants),
        }
    }
}

impl EnumDispatchItem {
    /// Reads a union as it was written: its variants are read in their order, and the
    /// first that is turned away ends the reading.
    pub fn parse(input: ItemSyntax) -> (r: Result<EnumDispatchItem, ItemError>)
        ensures
            match r {
                Ok(item) => input@.well_shaped() && item@ == input@.parsed(),
                Err(error) => input@.rejected_with(error),
            },
    {
        let ghost all = input@.variants;
        let ghost read = |v: VariantSyntaxView| v.parsed();
        let mut variants: Vec<EnumDispatchVariant> = Vec::new();
        let mut i: usize = 0;
        proof {
            lemma_deep_view_entries(input.variants);
            lemma_deep_view_entries(variants);
            assert(variants.deep_view() =~= all.take(0).map_values(read));
        }
        while i < input.variants.len()
            invariant
                i <= input.variants.len(),
                all == input.variants.deep_view(),
                read == (|v: VariantSyntaxView| v.parsed()),
                forall|j: int| 0 <= j < i ==> (#[trigger] all[j]).well_shaped(),
                variants.deep_view() == all.take(i as int).map_values(read),
            decreases input.variants.len() - i,
        {
            let ghost before = variants;
            proof {
                lemma_deep_view_entries(input.variants);
            }
            match EnumDispatchVariant::parse(&input.variants[i]) {
                Ok(variant) => {
                    variants.push(variant);
                    proof {
                        lemma_deep_view_push(before, variants, variant);
                        assert(variants.deep_view() =~= all.take(i + 1).map_values(read));
                    }
                },
                Err(error) => {
                    return Err(ItemError { variant: i, error });
                },
            }
            i += 1;
        }
        proof {
            lemma_deep_view_entries(input.variants);
            assert(all.take(input.variants.len() as int) =~= all);
        }
        let ItemSyntax { attrs, vis, ident, generics, variants: _ } = input;
        Ok(EnumDispatchItem { attrs, vis, ident, generics, variants })
    }
}

impl ToTokens for EnumDispatchItem {
    open spec fn text_of(value: EnumDispatchItemView) -> Seq<char> {
        value.text()
    }

    fn to_tokens(&self, tokens: &mut String) {
        let mut text = String::new();
        attributes_to_tokens(&self.attrs, &mut text);
        text.append(self.vis.as_str());
        text.append(" enum ");
        text.append(self.ident.as_str());
        self.generics.to_tokens(&mut text);
        text.append(" ");
        text.append(self.generics.where_clause.as_str());
        text.append(" { ");
        append_all(&self.variants, ", ", &mut text);
        text.append("}");
        proof {
            assert(Seq::<char>::empty() + attributes_text(self@.attrs) =~= attributes_text(
                self@.attrs,
            ));
        }
        tokens.append(text.as_str());
    }
}

} // verus!
