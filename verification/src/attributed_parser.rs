//! Telling apart the items that can carry the annotation: a union, an interface, a module.

use vstd::prelude::*;
use vstd::string::*;

use crate::enum_dispatch_item::{EnumDispatchItem, EnumDispatchItemView, ItemSyntax};
use crate::item_trait::{ItemTrait, ItemTraitView};

verus! {

/// A module, as far as it is read here: by its name.
pub struct ItemMod {
    pub ident: String,
}

/// The mathematical value of an [`ItemMod`].
pub struct ItemModView {
    pub ident: Seq<char>,
}

impl View for ItemMod {
    type V = ItemModView;

    open spec fn view(&self) -> ItemModView {
        ItemModView { ident: self.ident@ }
    }
}

/// The items that an annotated piece of source can turn out to be.
pub enum ParsedItem {
    Trait(ItemTrait),
    EnumDispatch(EnumDispatchItem),
    Module(ItemMod),
}

/// The mathematical value of a [`ParsedItem`].
pub enum ParsedItemView {
    Trait(ItemTraitView),
    EnumDispatch(EnumDispatchItemView),
    Module(ItemModView),
}

impl View for ParsedItem {
    type V = ParsedItemView;

    open spec fn view(&self) -> ParsedItemView {
        match self {
            ParsedItem::Trait(item) => ParsedItemView::Trait(item@),
            ParsedItem::EnumDispatch(item) => ParsedItemView::EnumDispatch(item@),
            ParsedItem::Module(item) => ParsedItemView::Module(item@),
        }
    }
}

/// The error for a piece of source that is none of the three items.
pub open spec fn unknown_item(source: Seq<char>) -> Seq<char> {
    "Unknown item "@ + source
}

/// Decides what an annotated piece of source is, from what it reads as.
///
/// `as_enum`, `as_trait` and `as_module` hold what the source gives when it is read as a
/// union, as an interface and as a module, where it can be read so. A union comes first,
/// but only if each of its variants has a shape that can be read; then an interface; then
/// a module. A source that is none of them is turned away with an error that quotes it.
pub fn parse_attributed(
    as_enum: Option<ItemSyntax>,
    as_trait: Option<ItemTrait>,
    as_module: Option<ItemMod>,
    source: &str,
) -> (r: Result<ParsedItem, String>)
    ensures
        match r {
            Ok(ParsedItem::EnumDispatch(item)) => as_enum matches Some(written)
                && written@.well_shaped() && item@ == written@.parsed(),
            Ok(ParsedItem::Trait(item)) => !(as_enum matches Some(written)
                && written@.well_shaped()) && as_trait == Some(item),
            Ok(ParsedItem::Module(item)) => !(as_enum matches Some(written)
                && written@.well_shaped()) && as_trait is None && as_module == Some(item),
            Err(message) => !(as_enum matches Some(written) && written@.well_shaped())
                && as_trait is None && as_module is None && message@ == unknown_item(source@),
        },
{
    if let Some(written) = as_enum {
        if let Ok(enumdef) = EnumDispatchItem::parse(written) {
            return Ok(ParsedItem::EnumDispatch(enumdef));
        }
    }
    if let Some(traitdef) = as_trait {
        Ok(ParsedItem::Trait(traitdef))
    } else if let Some(moddef) = as_module {
        Ok(ParsedItem::Module(moddef))
    } else {
        let mut message = String::from_str("Unknown item ");
        message.append(source);
        Err(message)
    }
}

} // verus!
