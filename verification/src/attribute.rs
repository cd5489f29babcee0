//! Attributes as the generator sees them: a path, and the tokens that follow it.

use vstd::prelude::*;
use vstd::string::*;

use crate::text::{append_all, texts, ToTokens};
use crate::views::{
    lemma_deep_view_entries, lemma_deep_view_push, lemma_deep_view_take_all,
    lemma_deep_view_take_next,
};

verus! {

/// One attribute of a declaration, such as `#[cfg(test)]`.
pub struct Attribute {
    /// The path that names the attribute: `cfg` in `#[cfg(test)]`.
    pub path: String,
    /// Everything between the path and the closing bracket: `(test)` in `#[cfg(test)]`.
    pub tokens: String,
}

/// The mathematical value of an [`Attribute`].
pub struct AttributeView {
    pub path: Seq<char>,
    pub tokens: Seq<char>,
}

impl View for Attribute {
    type V = AttributeView;

    open spec fn view(&self) -> AttributeView {
        AttributeView { path: self.path@, tokens: self.tokens@ }
    }
}

impl DeepView for Attribute {
    type V = AttributeView;

    open spec fn deep_view(&self) -> AttributeView {
        self@
    }
}

impl AttributeView {
    /// Whether the attribute is named by the single identifier `name`.
    pub open spec fn is_ident(self, name: Seq<char>) -> bool {
        self.path == name
    }

    /// Whether the attribute is a conditional-compilation marker.
    pub open spec fn is_cfg(self) -> bool {
        self.is_ident("cfg"@)
    }

    /// The attribute as source text.
    pub open spec fn text(self) -> Seq<char> {
        "#["@ + self.path + self.tokens + "]"@
    }
}

/// The conditional-compilation markers among `attrs`, in their order.
pub open spec fn cfg_attributes(attrs: Seq<AttributeView>) -> Seq<AttributeView> {
    attrs.filter(|a: AttributeView| a.is_cfg())
}

/// The source text of a run of attributes, each followed by one space.
pub open spec fn attributes_text(attrs: Seq<AttributeView>) -> Seq<char> {
    texts::<Attribute>(attrs, " "@)
}

impl Clone for Attribute {
    fn clone(&self) -> (r: Self)
        ensures
            r@ == self@,
    {
        Attribute { path: self.path.clone(), tokens: self.tokens.clone() }
    }
}

impl Attribute {
    /// An attribute with the given path and following tokens.
    pub fn new(path: &str, tokens: &str) -> (r: Self)
        ensures
            r@.path == path@,
            r@.tokens == tokens@,
    {
        Attribute { path: String::from_str(path), tokens: String::from_str(tokens) }
    }

    /// Whether the attribute's path is the single identifier `name`.
    pub fn is_ident(&self, name: &str) -> (r: bool)
        ensures
            r == self@.is_ident(name@),
    {
        self.path == String::from_str(name)
    }
}

impl ToTokens for Attribute {
    open spec fn text_of(value: AttributeView) -> Seq<char> {
        value.text()
    }

    fn to_tokens(&self, tokens: &mut String) {
        let mut text = String::from_str("#[");
        text.append(self.path.as_str());
        text.append(self.tokens.as_str());
        text.append("]");
        tokens.append(text.as_str());
    }
}

/// Whether an attribute of a variant also belongs on the code generated for that variant:
/// only conditional-compilation markers do.
pub fn use_attribute(attr: &Attribute) -> (r: bool)
    ensures
        r == attr@.is_cfg(),
{
    attr.is_ident("cfg")
}

/// Copies of the attributes of `attrs` that [`use_attribute`] keeps, in their order.
pub fn used_attributes(attrs: &Vec<Attribute>) -> (r: Vec<Attribute>)
    ensures
        r.deep_view() == cfg_attributes(attrs.deep_view()),
{
    let ghost keep = |a: AttributeView| a.is_cfg();
    let mut kept: Vec<Attribute> = Vec::new();
    let mut i: usize = 0;
    proof {
        lemma_deep_view_entries(kept);
        reveal(Seq::filter);
        assert(kept.deep_view() =~= attrs.deep_view().take(0).filter(keep));
    }
    while i < attrs.len()
        invariant
            i <= attrs.len(),
            keep == (|a: AttributeView| a.is_cfg()),
            kept.deep_view() == attrs.deep_view().take(i as int).filter(keep),
        decreases attrs.len() - i,
    {
        let ghost before = kept;
        proof {
            lemma_deep_view_take_next(*attrs, i as int);
            attrs.deep_view().take(i as int).lemma_filter_push(attrs[i as int]@, keep);
        }
        if use_attribute(&attrs[i]) {
            let one = attrs[i].clone();
            kept.push(one);
            proof {
                lemma_deep_view_push(before, kept, one);
            }
        }
        i += 1;
    }
    proof {
        lemma_deep_view_take_all(*attrs);
    }
    kept
}

/// Appends the source text of each attribute of `attrs`, followed by a space, to `tokens`.
pub fn attributes_to_tokens(attrs: &Vec<Attribute>, tokens: &mut String)
    ensures
        final(tokens)@ == old(tokens)@ + attributes_text(attrs.deep_view()),
{
    append_all(attrs, " ", tokens);
}

} // verus!
