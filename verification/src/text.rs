//! Building source text from pieces.

use vstd::prelude::*;
use vstd::string::*;

use crate::views::{lemma_deep_view_entries, lemma_deep_view_take_all, lemma_deep_view_take_next};

verus! {

/// The pieces of `items` in their order, with `separator` between each two neighbours.
pub open spec fn joined(items: Seq<Seq<char>>, separator: Seq<char>) -> Seq<char>
    decreases items.len(),
{
    if items.len() == 0 {
        Seq::empty()
    } else if items.len() == 1 {
        items[0]
    } else {
        joined(items.drop_last(), separator) + separator + items.last()
    }
}

/// A declaration or a piece of generated code that can be written out as source text.
pub trait ToTokens: DeepView {
    /// The source text of the value whose mathematical value is `value`.
    spec fn text_of(value: <Self as DeepView>::V) -> Seq<char>;

    /// Appends the value's source text to `tokens`.
    fn to_tokens(&self, tokens: &mut String)
        ensures
            final(tokens)@ == old(tokens)@ + Self::text_of(self.deep_view()),
    ;
}

/// The source texts of `items` in their order, each followed by `terminator`.
pub open spec fn texts<T: ToTokens>(items: Seq<<T as DeepView>::V>, terminator: Seq<char>) -> Seq<
    char,
>
    decreases items.len(),
{
    if items.len() == 0 {
        Seq::empty()
    } else {
        texts::<T>(items.drop_last(), terminator) + T::text_of(items.last()) + terminator
    }
}

/// Appends the source text of each of `items`, followed by `terminator`, to `tokens`.
pub fn append_all<T: ToTokens>(items: &Vec<T>, terminator: &str, tokens: &mut String)
    ensures
        final(tokens)@ == old(tokens)@ + texts::<T>(items.deep_view(), terminator@),
{
    let mut i: usize = 0;
    proof {
        lemma_deep_view_entries(*items);
        assert(old(tokens)@ + texts::<T>(items.deep_view().take(0), terminator@) =~= old(
            tokens,
        )@);
    }
    while i < items.len()
        invariant
            i <= items.len(),
            tokens@ == old(tokens)@ + texts::<T>(items.deep_view().take(i as int), terminator@),
        decreases items.len() - i,
    {
        proof {
            lemma_deep_view_take_next(*items, i as int);
        }
        items[i].to_tokens(tokens);
        tokens.append(terminator);
        proof {
            let sofar = texts::<T>(items.deep_view().take(i as int), terminator@);
            assert(tokens@ =~= old(tokens)@ + (sofar + T::text_of(items[i as int].deep_view())
                + terminator@));
        }
        i += 1;
    }
    proof {
        lemma_deep_view_take_all(*items);
    }
}

/// Joins the pieces of `items` with `separator` between each two neighbours.
pub fn join(items: &Vec<String>, separator: &str) -> (r: String)
    ensures
        r@ == joined(items.deep_view(), separator@),
{
    let mut text = String::new();
    let mut i: usize = 0;
    proof {
        lemma_deep_view_entries(*items);
        assert(items.deep_view().take(0) =~= Seq::<Seq<char>>::empty());
    }
    while i < items.len()
        invariant
            i <= items.len(),
            text@ == joined(items.deep_view().take(i as int), separator@),
        decreases items.len() - i,
    {
        proof {
            lemma_deep_view_take_next(*items, i as int);
            lemma_deep_view_entries(*items);
            if i == 0 {
                assert(text@ =~= Seq::<char>::empty());
                assert(Seq::<char>::empty() + items[0]@ =~= items[0]@);
            } else if i == 1 {
                assert(items.deep_view().take(1)[0] == items[0]@);
            }
        }
        if i > 0 {
            text.append(separator);
        }
        text.append(items[i].as_str());
        i += 1;
    }
    proof {
        lemma_deep_view_take_all(*items);
    }
    text
}

} // verus!
