//! One variant of a union: a tag, the single type it wraps, and the two markers that the
//! generator reads on it.
//!
//! A variant is written either as a bare name, which is then also the wrapped type, or as a
//! name with one unnamed field. Any other shape is turned away when the variant is read.

use vstd::prelude::*;
use vstd::string::*;

use crate::attribute::{attributes_text, attributes_to_tokens, Attribute, AttributeView};
use crate::text::ToTokens;
use crate::views::{
    clone_vec, lemma_deep_view_entries, lemma_deep_view_push, lemma_deep_view_take_all,
    lemma_deep_view_take_next,
};

verus! {

/// The name of the attribute under which a variant carries this library's own markers.
pub const ENUM_DISPATCH: &'static str = "enum_dispatch";

/// The marker that asks for calls to be forwarded through one dereference.
pub const DEREF_ATTRIBUTE: &'static str = "deref";

/// One unnamed field of a variant as it was written.
pub struct FieldSyntax {
    pub attrs: Vec<Attribute>,
    pub ty: String,
}

/// The mathematical value of a [`FieldSyntax`].
pub struct FieldSyntaxView {
    pub attrs: Seq<AttributeView>,
    pub ty: Seq<char>,
}

impl View for FieldSyntax {
    type V = FieldSyntaxView;

    open spec fn view(&self) -> FieldSyntaxView {
        FieldSyntaxView { attrs: self.attrs.deep_view(), ty: self.ty@ }
    }
}

impl DeepView for FieldSyntax {
    type V = FieldSyntaxView;

    open spec fn deep_view(&self) -> FieldSyntaxView {
        self@
    }
}

/// What follows the name of a variant as it was written.
pub enum FieldsSyntax {
    /// Nothing: the name stands for the type too.
    Unit,
    /// Fields in parentheses.
    Unnamed(Vec<FieldSyntax>),
    /// Fields in braces.
    Named,
}

/// The mathematical value of a [`FieldsSyntax`].
pub enum FieldsSyntaxView {
    Unit,
    Unnamed(Seq<FieldSyntaxView>),
    Named,
}

impl View for FieldsSyntax {
    type V = FieldsSyntaxView;

    open spec fn view(&self) -> FieldsSyntaxView {
        match self {
            FieldsSyntax::Unit => FieldsSyntaxView::Unit,
            FieldsSyntax::Unnamed(fields) => FieldsSyntaxView::Unnamed(fields.deep_view()),
            FieldsSyntax::Named => FieldsSyntaxView::Named,
        }
    }
}

/// A variant as it was written, before its markers are read and its shape is checked.
pub struct VariantSyntax {
    pub attrs: Vec<Attribute>,
    pub ident: String,
    pub fields: FieldsSyntax,
}

/// The mathematical value of a [`VariantSyntax`].
pub struct VariantSyntaxView {
    pub attrs: Seq<AttributeView>,
    pub ident: Seq<char>,
    pub fields: FieldsSyntaxView,
}

impl View for VariantSyntax {
    type V = VariantSyntaxView;

    open spec fn view(&self) -> VariantSyntaxView {
        VariantSyntaxView {
            attrs: self.attrs.deep_view(),
            ident: self.ident@,
            fields: self.fields@,
        }
    }
}

impl DeepView for VariantSyntax {
    type V = VariantSyntaxView;

    open spec fn deep_view(&self) -> VariantSyntaxView {
        self@
    }
}

/// Why a variant was turned away.
#[derive(Debug, PartialEq, Eq, Structural, Clone, Copy)]
pub enum VariantError {
    /// The attribute at this position is this library's own, but is no marker it knows.
    UnknownMarker(usize),
    /// The variant has fields in braces.
    BracedFields,
    /// The variant has parentheses with no field in them.
    MissingField,
    /// The variant has more than one field.
    TooManyFields,
}

/// A marker that this library reads on a variant.
#[derive(Debug, PartialEq, Eq, Structural, Clone, Copy)]
pub enum EnumDispatchVariantAttribute {
    /// Forward calls through one dereference of the wrapped value.
    Deref,
}

/// A variant of a union.
pub struct EnumDispatchVariant {
    /// Whether calls are forwarded through one dereference of the wrapped value.
    pub deref: bool,
    /// The attributes of the variant, this library's own markers left out.
    pub attrs: Vec<Attribute>,
    /// The tag.
    pub ident: String,
    /// The attributes of the wrapped field.
    pub field_attrs: Vec<Attribute>,
    /// The wrapped type.
    pub ty: String,
}

/// The mathematical value of an [`EnumDispatchVariant`].
pub struct EnumDispatchVariantView {
    pub deref: bool,
    pub attrs: Seq<AttributeView>,
    pub ident: Seq<char>,
    pub field_attrs: Seq<AttributeView>,
    pub ty: Seq<char>,
}

impl View for EnumDispatchVariant {
    type V = EnumDispatchVariantView;

    open spec fn view(&self) -> EnumDispatchVariantView {
        EnumDispatchVariantView {
            deref: self.deref,
            attrs: self.attrs.deep_view(),
            ident: self.ident@,
            field_attrs: self.field_attrs.deep_view(),
            ty: self.ty@,
        }
    }
}

impl DeepView for EnumDispatchVariant {
    type V = EnumDispatchVariantView;

    open spec fn deep_view(&self) -> EnumDispatchVariantView {
        self@
    }
}

impl AttributeView {
    /// Whether the attribute is one of this library's own.
    pub open spec fn is_own(self) -> bool {
        self.is_ident(ENUM_DISPATCH@)
    }

    /// Whether the attribute is the marker `#[enum_dispatch(deref)]`.
    pub open spec fn is_deref_marker(self) -> bool {
        self.is_own() && self.tokens == "("@ + DEREF_ATTRIBUTE@ + ")"@
    }

    /// Whether the attribute is this library's own without being a marker it knows.
    pub open spec fn is_unknown_marker(self) -> bool {
        self.is_own() && !self.is_deref_marker()
    }
}

impl VariantSyntaxView {
    /// Whether the variant carries the dereference marker.
    pub open spec fn has_deref_marker(self) -> bool {
        exists|i: int| 0 <= i < self.attrs.len() && (#[trigger] self.attrs[i]).is_deref_marker()
    }

    /// Whether none of the variant's attributes is an unknown marker.
    pub open spec fn markers_known(self) -> bool {
        forall|i: int| 0 <= i < self.attrs.len() ==> !(#[trigger] self.attrs[i]).is_unknown_marker()
    }

    /// The attributes that are not this library's own, in their order.
    pub open spec fn foreign_attrs(self) -> Seq<AttributeView> {
        self.attrs.filter(|a: AttributeView| !a.is_own())
    }

    /// Whether the variant has a shape that can be read: every marker known, and either a
    /// bare name or exactly one unnamed field.
    pub open spec fn well_shaped(self) -> bool {
        self.markers_known() && match self.fields {
            FieldsSyntaxView::Unit => true,
            FieldsSyntaxView::Unnamed(fields) => fields.len() == 1,
            FieldsSyntaxView::Named => false,
        }
    }

    /// The variant that a well-shaped input stands for. A bare name wraps the type of the
    /// same name. The foreign attributes stay; the dereference marker becomes a flag.
    pub open spec fn parsed(self) -> EnumDispatchVariantView {
        EnumDispatchVariantView {
            deref: self.has_deref_marker(),
            attrs: self.foreign_attrs(),
            ident: self.ident,
            field_attrs: match self.fields {
                FieldsSyntaxView::Unnamed(fields) => fields[0].attrs,
                _ => Seq::empty(),
            },
            ty: match self.fields {
                FieldsSyntaxView::Unnamed(fields) => fields[0].ty,
                _ => self.ident,
            },
        }
    }

    /// Whether `error` is the reason for which the input is turned away: the first unknown
    /// marker where there is one, else what is wrong with the shape.
    pub open spec fn rejected_with(self, error: VariantError) -> bool {
        match error {
            VariantError::UnknownMarker(at) => {
                &&& at < self.attrs.len()
                &&& self.attrs[at as int].is_unknown_marker()
                &&& forall|j: int| 0 <= j < at ==> !(#[trigger] self.attrs[j]).is_unknown_marker()
            },
            VariantError::BracedFields => self.markers_known() && self.fields
                == FieldsSyntaxView::Named,
            VariantError::MissingField => self.markers_known() && match self.fields {
                FieldsSyntaxView::Unnamed(fields) => fields.len() == 0,
                _ => false,
            },
            VariantError::TooManyFields => self.markers_known() && match self.fields {
                FieldsSyntaxView::Unnamed(fields) => fields.len() > 1,
                _ => false,
            },
        }
    }
}

impl EnumDispatchVariantView {
    /// The variant as source text, with the dereference marker written out again, so that
    /// reading the text gives the variant back.
    pub open spec fn text(self) -> Seq<char> {
        attributes_text(self.attrs) + (if self.deref {
            "#[enum_dispatch(deref)] "@
        } else {
            Seq::empty()
        }) + self.ident + "("@ + attributes_text(self.field_attrs) + self.ty + ")"@
    }
}

/// The marker that asks for calls to be forwarded through one dereference.
pub open spec fn deref_marker() -> AttributeView {
    AttributeView { path: ENUM_DISPATCH@, tokens: "("@ + DEREF_ATTRIBUTE@ + ")"@ }
}

impl EnumDispatchVariantView {
    /// The variant as it is written out: its attributes, the dereference marker behind
    /// them where the variant asks for a dereference, its name, and its one field.
    pub open spec fn as_written(self) -> VariantSyntaxView {
        VariantSyntaxView {
            attrs: if self.deref {
                self.attrs.push(deref_marker())
            } else {
                self.attrs
            },
            ident: self.ident,
            fields: FieldsSyntaxView::Unnamed(
                seq![FieldSyntaxView { attrs: self.field_attrs, ty: self.ty }],
            ),
        }
    }
}

/// Taking the part of a run that a test accepts gives the whole run, where the test
/// accepts every item.
proof fn lemma_filter_keeps_all(
    attrs: Seq<AttributeView>,
    accepts: spec_fn(AttributeView) -> bool,
)
    requires
        forall|i: int| 0 <= i < attrs.len() ==> accepts(#[trigger] attrs[i]),
    ensures
        attrs.filter(accepts) == attrs,
    decreases attrs.len(),
{
    reveal(Seq::filter);
    if attrs.len() > 0 {
        lemma_filter_keeps_all(attrs.drop_last(), accepts);
        assert(attrs.drop_last().push(attrs.last()) =~= attrs);
    }
}

/// A variant that is written out reads as itself again: the marker that reading took off
/// is back in what is written, and reading takes it off once more.
pub proof fn lemma_written_variant_reads_back(variant: EnumDispatchVariantView)
    requires
        forall|i: int| 0 <= i < variant.attrs.len() ==> !(#[trigger] variant.attrs[i]).is_own(),
    ensures
        variant.as_written().well_shaped(),
        variant.as_written().parsed() == variant,
{
    let written = variant.as_written();
    let foreign = |a: AttributeView| !a.is_own();
    lemma_filter_keeps_all(variant.attrs, foreign);
    if variant.deref {
        variant.attrs.lemma_filter_push(deref_marker(), foreign);
        assert(written.attrs[variant.attrs.len() as int].is_deref_marker());
        assert forall|i: int| 0 <= i < written.attrs.len() implies !(
        #[trigger] written.attrs[i]).is_unknown_marker() by {
            if i < variant.attrs.len() {
                assert(written.attrs[i] == variant.attrs[i]);
            }
        }
    } else {
        assert forall|i: int| 0 <= i < written.attrs.len() implies !(
        #[trigger] written.attrs[i]).is_deref_marker() by {}
    }
    assert(written.parsed().field_attrs == variant.field_attrs);
}

/// The type that a bare variant name stands for: the type of that name.
pub fn into_type(ident: &String) -> (r: String)
    ensures
        r@ == ident@,
{
    ident.clone()
}

/// Reads one attribute of a variant: `Some` marker where it is this library's own and
/// known, `None` where it belongs to someone else, an error where it is this library's own
/// and unknown. `position` is only handed on into the error.
pub fn parse_variant_attribute(attr: &Attribute, position: usize) -> (r: Result<
    Option<EnumDispatchVariantAttribute>,
    VariantError,
>)
    ensures
        attr@.is_deref_marker() ==> r == Ok::<Option<EnumDispatchVariantAttribute>, VariantError>(
            Some(EnumDispatchVariantAttribute::Deref),
        ),
        !attr@.is_own() ==> r == Ok::<Option<EnumDispatchVariantAttribute>, VariantError>(None),
        attr@.is_unknown_marker() ==> r == Err::<Option<EnumDispatchVariantAttribute>, VariantError>(
            VariantError::UnknownMarker(position),
        ),
{
    if attr.is_ident(ENUM_DISPATCH) {
        let mut expected = String::from_str("(");
        expected.append(DEREF_ATTRIBUTE);
        expected.append(")");
        if attr.tokens == expected {
            Ok(Some(EnumDispatchVariantAttribute::Deref))
        } else {
            Err(VariantError::UnknownMarker(position))
        }
    } else {
        Ok(None)
    }
}

impl Clone for EnumDispatchVariant {
    fn clone(&self) -> (r: Self)
        ensures
            r@ == self@,
    {
        EnumDispatchVariant {
            deref: self.deref,
            attrs: clone_vec(&self.attrs),
            ident: self.ident.clone(),
            field_attrs: clone_vec(&self.field_attrs),
            ty: self.ty.clone(),
        }
    }
}

impl EnumDispatchVariant {
    /// Reads a variant as it was written.
    ///
    /// The attributes are read first, in their order: the first unknown marker ends the
    /// reading. Then the shape is checked. A variant that passes keeps its foreign
    /// attributes; the dereference marker becomes the flag `deref`.
    pub fn parse(input: &VariantSyntax) -> (r: Result<EnumDispatchVariant, VariantError>)
        ensures
            match r {
                Ok(variant) => input@.well_shaped() && variant@ == input@.parsed(),
                Err(error) => input@.rejected_with(error),
            },
    {
        let ghost foreign = |a: AttributeView| !a.is_own();
        let mut deref = false;
        let mut extra_attrs: Vec<Attribute> = Vec::new();
        let mut i: usize = 0;
        proof {
            lemma_deep_view_entries(input.attrs);
            lemma_deep_view_entries(extra_attrs);
            reveal(Seq::filter);
            assert(extra_attrs.deep_view() =~= input@.attrs.take(0).filter(foreign));
        }
        while i < input.attrs.len()
            invariant
                i <= input.attrs.len(),
                foreign == (|a: AttributeView| !a.is_own()),
                input@.attrs.len() == input.attrs.len(),
                forall|j: int| 0 <= j < i ==> !(#[trigger] input@.attrs[j]).is_unknown_marker(),
                deref <==> exists|j: int| 0 <= j < i && (#[trigger] input@.attrs[j]).is_deref_marker(),
                extra_attrs.deep_view() == input@.attrs.take(i as int).filter(foreign),
            decreases input.attrs.len() - i,
        {
            let ghost before = extra_attrs;
            proof {
                lemma_deep_view_take_next(input.attrs, i as int);
                lemma_deep_view_entries(input.attrs);
                input@.attrs.take(i as int).lemma_filter_push(input.attrs[i as int]@, foreign);
            }
            match parse_variant_attribute(&input.attrs[i], i) {
                Ok(Some(EnumDispatchVariantAttribute::Deref)) => {
                    deref = true;
                },
                Ok(None) => {
                    let one = input.attrs[i].clone();
                    extra_attrs.push(one);
                    proof {
                        lemma_deep_view_push(before, extra_attrs, one);
                    }
                },
                Err(error) => {
                    return Err(error);
                },
            }
            i += 1;
        }
        proof {
            lemma_deep_view_take_all(input.attrs);
        }
        let ident = input.ident.clone();
        match &input.fields {
            FieldsSyntax::Named => Err(VariantError::BracedFields),
            FieldsSyntax::Unnamed(fields) => {
                proof {
                    lemma_deep_view_entries(*fields);
                }
                if fields.len() == 0 {
                    Err(VariantError::MissingField)
                } else if fields.len() > 1 {
                    Err(VariantError::TooManyFields)
                } else {
                    Ok(
                        EnumDispatchVariant {
                            deref,
                            attrs: extra_attrs,
                            ident,
                            field_attrs: clone_vec(&fields[0].attrs),
                            ty: fields[0].ty.clone(),
                        },
                    )
                }
            },
            FieldsSyntax::Unit => {
                let ty = into_type(&ident);
                let field_attrs: Vec<Attribute> = Vec::new();
                proof {
                    lemma_deep_view_entries(field_attrs);
                    assert(field_attrs.deep_view() =~= Seq::<AttributeView>::empty());
                }
                Ok(EnumDispatchVariant { deref, attrs: extra_attrs, ident, field_attrs, ty })
            },
        }
    }
}

impl ToTokens for EnumDispatchVariant {
    open spec fn text_of(value: EnumDispatchVariantView) -> Seq<char> {
        value.text()
    }

    /// Reading a variant takes the dereference marker off its attributes. The text is to
    /// read as the same variant again, so the marker is written back here.
    fn to_tokens(&self, tokens: &mut String) {
        let mut text = String::new();
        attributes_to_tokens(&self.attrs, &mut text);
        if self.deref {
            text.append("#[enum_dispatch(deref)] ");
        } else {
            proof {
                assert(text@ + Seq::<char>::empty() =~= text@);
            }
        }
        text.append(self.ident.as_str());
        text.append("(");
        attributes_to_tokens(&self.field_attrs, &mut text);
        text.append(self.ty.as_str());
        text.append(")");
        proof {
            assert(Seq::<char>::empty() + attributes_text(self@.attrs) =~= attributes_text(
                self@.attrs,
            ));
        }
        tokens.append(text.as_str());
    }
}

} // verus!
