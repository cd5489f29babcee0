//! The arguments of the annotation: a list of names, or a list of interfaces for one item.

use vstd::prelude::*;
use vstd::string::*;

verus! {

/// A plain list of paths: `A, B, C`.
pub type ListItem = Vec<String>;

/// Interfaces for one item: `A + B for C`.
pub struct ForItem {
    /// The interfaces, in the order in which they are written; at least one.
    pub traits: Vec<String>,
    /// The item after `for`.
    pub item: String,
}

/// The mathematical value of a [`ForItem`].
pub struct ForItemView {
    pub traits: Seq<Seq<char>>,
    pub item: Seq<char>,
}

impl View for ForItem {
    type V = ForItemView;

    open spec fn view(&self) -> ForItemView {
        ForItemView { traits: self.traits.deep_view(), item: self.item@ }
    }
}

/// The arguments of the annotation.
pub enum EnumDispatchArgList {
    List(ListItem),
    For(ForItem),
}

/// The mathematical value of an [`EnumDispatchArgList`].
pub enum EnumDispatchArgListView {
    List(Seq<Seq<char>>),
    For(ForItemView),
}

impl View for EnumDispatchArgList {
    type V = EnumDispatchArgListView;

    open spec fn view(&self) -> EnumDispatchArgListView {
        match self {
            EnumDispatchArgList::List(list) => EnumDispatchArgListView::List(list.deep_view()),
            EnumDispatchArgList::For(item) => EnumDispatchArgListView::For(item@),
        }
    }
}

/// Why arguments were turned away: they have neither of the two forms.
#[derive(Debug, PartialEq, Eq, Structural, Clone, Copy)]
pub enum ArgListError {
    UnknownFormat,
}

impl ArgListError {
    /// The error as a sentence.
    pub fn message(&self) -> (r: String)
        ensures
            r@ == "Failed to parse arg list: Unknown format"@,
    {
        String::from_str("Failed to parse arg list: Unknown format")
    }
}

impl EnumDispatchArgList {
    /// Decides which form the arguments have, from what they read as: interfaces for one
    /// item where they read so, else a plain list where they read so, else neither.
    pub fn parse(as_for: Option<ForItem>, as_list: Option<ListItem>) -> (r: Result<
        EnumDispatchArgList,
        ArgListError,
    >)
        ensures
            match r {
                Ok(EnumDispatchArgList::For(item)) => as_for == Some(item),
                Ok(EnumDispatchArgList::List(list)) => as_for is None && as_list == Some(list),
                Err(_) => as_for is None && as_list is None,
            },
    {
        if let Some(arg_list) = as_for {
            return Ok(EnumDispatchArgList::For(arg_list));
        }
        if let Some(arg_list) = as_list {
            return Ok(EnumDispatchArgList::List(arg_list));
        }
        Err(ArgListError::UnknownFormat)
    }
}

} // verus!
