//! Generic parameter lists, and the three forms in which an implementation block names them.

use vstd::prelude::*;
use vstd::string::*;

use crate::text::{join, joined};
use crate::views::{
    clone_vec, lemma_deep_view_entries, lemma_deep_view_push, lemma_deep_view_take_all,
    lemma_deep_view_take_next,
};

verus! {

/// The three kinds of generic parameter.
#[derive(Debug, PartialEq, Eq, Structural, Clone, Copy)]
pub enum GenericParamKind {
    /// A lifetime, such as `'a`.
    Lifetime,
    /// A type, such as `T`.
    Type,
    /// A constant, such as `const N: usize`.
    Const,
}

impl DeepView for GenericParamKind {
    type V = GenericParamKind;

    open spec fn deep_view(&self) -> GenericParamKind {
        *self
    }
}

/// One generic parameter of a declaration.
pub struct GenericParam {
    pub kind: GenericParamKind,
    /// The parameter's name; a lifetime's name starts with its apostrophe.
    pub ident: String,
    /// What follows the colon: the bounds of a lifetime or type (empty where there are none),
    /// the type of a constant.
    pub bounds: String,
    /// The default that follows `=`, empty where there is none.
    pub default: String,
}

/// The mathematical value of a [`GenericParam`].
pub struct GenericParamView {
    pub kind: GenericParamKind,
    pub ident: Seq<char>,
    pub bounds: Seq<char>,
    pub default: Seq<char>,
}

impl View for GenericParam {
    type V = GenericParamView;

    open spec fn view(&self) -> GenericParamView {
        GenericParamView {
            kind: self.kind,
            ident: self.ident@,
            bounds: self.bounds@,
            default: self.default@,
        }
    }
}

impl DeepView for GenericParam {
    type V = GenericParamView;

    open spec fn deep_view(&self) -> GenericParamView {
        self@
    }
}

/// The generic parameters of a declaration and its `where` clause.
pub struct Generics {
    pub params: Vec<GenericParam>,
    /// The whole clause, `where` included; empty where there is none.
    pub where_clause: String,
}

/// The mathematical value of a [`Generics`].
pub struct GenericsView {
    pub params: Seq<GenericParamView>,
    pub where_clause: Seq<char>,
}

impl View for Generics {
    type V = GenericsView;

    open spec fn view(&self) -> GenericsView {
        GenericsView { params: self.params.deep_view(), where_clause: self.where_clause@ }
    }
}

impl DeepView for Generics {
    type V = GenericsView;

    open spec fn deep_view(&self) -> GenericsView {
        self@
    }
}

/// The form in which a generic parameter is written.
#[derive(Debug, PartialEq, Eq, Structural, Clone, Copy)]
pub enum ParamForm {
    /// As the declaration writes it, with bounds and default.
    Declared,
    /// As the header of an implementation block writes it: with bounds, without default.
    Bound,
    /// As a use of the type writes it: the name alone.
    Named,
}

impl GenericParamView {
    /// Whether the parameter is a lifetime.
    pub open spec fn is_lifetime(self) -> bool {
        self.kind == GenericParamKind::Lifetime
    }

    /// The parameter with its bounds and without its default.
    pub open spec fn bound_text(self) -> Seq<char> {
        if self.kind == GenericParamKind::Const {
            "const "@ + self.ident + ": "@ + self.bounds
        } else if self.bounds.len() == 0 {
            self.ident
        } else {
            self.ident + ": "@ + self.bounds
        }
    }

    /// The parameter as its declaration writes it.
    pub open spec fn declared_text(self) -> Seq<char> {
        if self.default.len() == 0 {
            self.bound_text()
        } else {
            self.bound_text() + " = "@ + self.default
        }
    }

    /// The parameter in the given form.
    pub open spec fn text(self, form: ParamForm) -> Seq<char> {
        match form {
            ParamForm::Declared => self.declared_text(),
            ParamForm::Bound => self.bound_text(),
            ParamForm::Named => self.ident,
        }
    }
}

/// The texts, in the given form, of those parameters that are lifetimes (`lifetimes`) or
/// that are not (`!lifetimes`), in their order.
pub open spec fn selected_texts(
    params: Seq<GenericParamView>,
    lifetimes: bool,
    form: ParamForm,
) -> Seq<Seq<char>>
    decreases params.len(),
{
    if params.len() == 0 {
        Seq::empty()
    } else {
        let before = selected_texts(params.drop_last(), lifetimes, form);
        if params.last().is_lifetime() == lifetimes {
            before.push(params.last().text(form))
        } else {
            before
        }
    }
}

/// The number of type parameters among `params`.
pub open spec fn count_type_params(params: Seq<GenericParamView>) -> nat
    decreases params.len(),
{
    if params.len() == 0 {
        0
    } else {
        let before = count_type_params(params.drop_last());
        if params.last().kind == GenericParamKind::Type {
            before + 1
        } else {
            before
        }
    }
}

impl GenericsView {
    /// The texts of all parameters in the given form: the lifetimes first, then the others,
    /// each group in its order of declaration.
    pub open spec fn param_texts(self, form: ParamForm) -> Seq<Seq<char>> {
        selected_texts(self.params, true, form) + selected_texts(self.params, false, form)
    }

    /// The parameter list in angle brackets in the given form; empty without parameters.
    pub open spec fn bracketed(self, form: ParamForm) -> Seq<char> {
        if self.params.len() == 0 {
            Seq::empty()
        } else {
            "<"@ + joined(self.param_texts(form), ", "@) + ">"@
        }
    }

    /// The parameter list that follows `impl`.
    pub open spec fn impl_generics(self) -> Seq<char> {
        self.bracketed(ParamForm::Bound)
    }

    /// The parameter list that follows the name of the type in a use of it.
    pub open spec fn type_generics(self) -> Seq<char> {
        self.bracketed(ParamForm::Named)
    }

    /// The parameter list that follows a path in an expression.
    pub open spec fn turbofish(self) -> Seq<char> {
        if self.params.len() == 0 {
            Seq::empty()
        } else {
            "::"@ + self.type_generics()
        }
    }

    /// The parameter list as the declaration writes it.
    pub open spec fn declared(self) -> Seq<char> {
        self.bracketed(ParamForm::Declared)
    }

    /// The generic arity: the number of type parameters.
    pub open spec fn arity(self) -> nat {
        count_type_params(self.params)
    }
}

impl GenericParam {
    /// The parameter's text in the given form.
    pub fn text(&self, form: ParamForm) -> (r: String)
        ensures
            r@ == self@.text(form),
    {
        if form == ParamForm::Named {
            return self.ident.clone();
        }
        let mut text = String::new();
        proof {
            assert(text@ + "const "@ =~= "const "@);
            assert(text@ + self.ident@ =~= self.ident@);
        }
        if self.kind == GenericParamKind::Const {
            text.append("const ");
            text.append(self.ident.as_str());
            text.append(": ");
            text.append(self.bounds.as_str());
        } else {
            text.append(self.ident.as_str());
            if self.bounds.as_str().unicode_len() != 0 {
                text.append(": ");
                text.append(self.bounds.as_str());
            }
        }
        if form == ParamForm::Declared && self.default.as_str().unicode_len() != 0 {
            text.append(" = ");
            text.append(self.default.as_str());
        }
        text
    }
}

impl Clone for GenericParam {
    fn clone(&self) -> (r: Self)
        ensures
            r@ == self@,
    {
        GenericParam {
            kind: self.kind,
            ident: self.ident.clone(),
            bounds: self.bounds.clone(),
            default: self.default.clone(),
        }
    }
}

impl Clone for Generics {
    fn clone(&self) -> (r: Self)
        ensures
            r@ == self@,
    {
        Generics { params: clone_vec(&self.params), where_clause: self.where_clause.clone() }
    }
}

impl Generics {
    /// No parameters and no `where` clause.
    pub fn new() -> (r: Self)
        ensures
            r@.params.len() == 0,
            r@.where_clause.len() == 0,
    {
        let params: Vec<GenericParam> = Vec::new();
        proof {
            lemma_deep_view_entries(params);
        }
        Generics { params, where_clause: String::new() }
    }

    /// Appends to `texts` the texts of the lifetimes, or of the other parameters.
    fn select_texts(&self, lifetimes: bool, form: ParamForm, texts: &mut Vec<String>)
        ensures
            final(texts).deep_view() == old(texts).deep_view() + selected_texts(
                self@.params,
                lifetimes,
                form,
            ),
    {
        let mut i: usize = 0;
        proof {
            lemma_deep_view_entries(self.params);
            assert(self.params.deep_view().take(0).len() == 0);
            assert(texts.deep_view() + selected_texts(self@.params.take(0), lifetimes, form)
                =~= texts.deep_view());
        }
        while i < self.params.len()
            invariant
                i <= self.params.len(),
                texts.deep_view() == old(texts).deep_view() + selected_texts(
                    self@.params.take(i as int),
                    lifetimes,
                    form,
                ),
            decreases self.params.len() - i,
        {
            let ghost before = *texts;
            proof {
                lemma_deep_view_take_next(self.params, i as int);
            }
            if (self.params[i].kind == GenericParamKind::Lifetime) == lifetimes {
                let one = self.params[i].text(form);
                texts.push(one);
                proof {
                    lemma_deep_view_push(before, *texts, one);
                    let sofar = selected_texts(self@.params.take(i as int), lifetimes, form);
                    assert(texts.deep_view() =~= old(texts).deep_view() + sofar.push(one@));
                }
            }
            i += 1;
        }
        proof {
            lemma_deep_view_take_all(self.params);
        }
    }

    /// The parameter list in angle brackets in the given form.
    fn bracketed(&self, form: ParamForm) -> (r: String)
        ensures
            r@ == self@.bracketed(form),
    {
        let mut text = String::new();
        if self.params.len() == 0 {
            proof {
                lemma_deep_view_entries(self.params);
            }
            return text;
        }
        let mut texts: Vec<String> = Vec::new();
        proof {
            lemma_deep_view_entries(self.params);
            lemma_deep_view_entries(texts);
            assert(texts.deep_view() =~= Seq::<Seq<char>>::empty());
        }
        self.select_texts(true, form, &mut texts);
        self.select_texts(false, form, &mut texts);
        proof {
            assert(texts.deep_view() =~= self@.param_texts(form));
            assert(text@ + "<"@ =~= "<"@);
        }
        text.append("<");
        text.append(join(&texts, ", ").as_str());
        text.append(">");
        text
    }

    /// The three texts that the header of an implementation block for the declared type is
    /// made of: the parameters after `impl`, the parameters after the type's name, and the
    /// `where` clause.
    pub fn split_for_impl(&self) -> (r: (String, String, String))
        ensures
            r.0@ == self@.impl_generics(),
            r.1@ == self@.type_generics(),
            r.2@ == self@.where_clause,
    {
        (self.bracketed(ParamForm::Bound), self.bracketed(ParamForm::Named), self.where_clause.clone())
    }

    /// The parameter list as a path in an expression takes it.
    pub fn as_turbofish(&self) -> (r: String)
        ensures
            r@ == self@.turbofish(),
    {
        let mut text = String::new();
        if self.params.len() == 0 {
            proof {
                lemma_deep_view_entries(self.params);
            }
            return text;
        }
        proof {
            lemma_deep_view_entries(self.params);
            assert(text@ + "::"@ =~= "::"@);
        }
        text.append("::");
        text.append(self.bracketed(ParamForm::Named).as_str());
        text
    }

    /// The number of type parameters.
    pub fn type_params_count(&self) -> (r: usize)
        ensures
            r == self@.arity(),
    {
        let mut count: usize = 0;
        let mut i: usize = 0;
        proof {
            lemma_deep_view_entries(self.params);
        }
        while i < self.params.len()
            invariant
                i <= self.params.len(),
                count <= i,
                count == count_type_params(self@.params.take(i as int)),
            decreases self.params.len() - i,
        {
            proof {
                lemma_deep_view_take_next(self.params, i as int);
            }
            if self.params[i].kind == GenericParamKind::Type {
                count += 1;
            }
            i += 1;
        }
        proof {
            lemma_deep_view_take_all(self.params);
        }
        count
    }

    /// Appends the parameter list, as the declaration writes it, to `tokens`.
    pub fn to_tokens(&self, tokens: &mut String)
        ensures
            final(tokens)@ == old(tokens)@ + self@.declared(),
    {
        tokens.append(self.bracketed(ParamForm::Declared).as_str());
    }
}

} // verus!
