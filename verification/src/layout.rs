//! How each kind of declaration is laid out as a tree for keeping.
//!
//! A record is laid out as the list of its fields, a choice as a list that starts with the
//! name of what was chosen.

use vstd::prelude::*;
use vstd::string::*;

use crate::attribute::{Attribute, AttributeView};
use crate::enum_dispatch_item::{EnumDispatchItem, EnumDispatchItemView};
use crate::enum_dispatch_variant::{EnumDispatchVariant, EnumDispatchVariantView};
use crate::cache::{Definition, DefinitionView};
use crate::generics::{GenericParam, GenericParamKind, GenericParamView, Generics, GenericsView};
use crate::item_trait::{
    FnArg, FnArgView, ItemTrait, ItemTraitView, Signature, SignatureView, TraitItem,
    TraitItemConst, TraitItemConstView, TraitItemMethod, TraitItemMethodView, TraitItemView,
};
use crate::stored::{
    decode, encode, encode_all, lemma_encode_all_push, lemma_encode_list, write_list, ListReader,
    Node, Stored,
};
use crate::views::{
    lemma_deep_view_entries, lemma_deep_view_push, lemma_deep_view_take_all,
    lemma_deep_view_take_next,
};

verus! {

/// The tree of a flag.
pub open spec fn flag_node(value: bool) -> Node {
    Node::Text(
        if value {
            "1"@
        } else {
            "0"@
        },
    )
}

impl Stored for bool {
    open spec fn node_of(value: bool) -> Node {
        flag_node(value)
    }

    proof fn lemma_node_tells_value(a: bool, b: bool) {
        reveal_strlit("1");
        reveal_strlit("0");
        assert("1"@.len() == 1 && "0"@.len() == 1);
        assert("1"@[0] != "0"@[0]);
    }

    fn write(&self, out: &mut String) {
        String::from_str(if *self {
            "1"
        } else {
            "0"
        }).write(out);
    }

    fn read(text: &str, at: usize) -> (r: Option<(bool, usize)>) {
        match String::read(text, at) {
            Some((written, next)) => {
                if written == String::from_str("1") {
                    Some((true, next))
                } else if written == String::from_str("0") {
                    Some((false, next))
                } else {
                    proof {
                        assert forall|value: bool|
                            !(decode(text@, at as int) matches Some((node, _)) && node
                                == #[trigger] Self::node_of(value)) by {
                            if value {
                                assert(Self::node_of(value) == Node::Text("1"@));
                            } else {
                                assert(Self::node_of(value) == Node::Text("0"@));
                            }
                        }
                    }
                    None
                }
            },
            None => {
                proof {
                    assert forall|value: bool|
                        !(decode(text@, at as int) matches Some((node, _)) && node
                            == #[trigger] Self::node_of(value)) by {
                        assert(Self::node_of(value) is Text);
                        assert forall|content: Seq<char>|
                            !(decode(text@, at as int) matches Some((node, _)) && node
                                == #[trigger] String::node_of(content)) by {}
                        assert(Self::node_of(value) == String::node_of(Self::node_of(value)->Text_0));
                    }
                }
                None
            },
        }
    }
}

/// The trees of a run of values.
pub open spec fn nodes_of<T: Stored>(values: Seq<<T as DeepView>::V>) -> Seq<Node> {
    values.map_values(|value: <T as DeepView>::V| T::node_of(value))
}

impl<T: Stored> Stored for Vec<T> {
    open spec fn node_of(value: Seq<<T as DeepView>::V>) -> Node {
        Node::List(nodes_of::<T>(value))
    }

    proof fn lemma_node_tells_value(a: Seq<<T as DeepView>::V>, b: Seq<<T as DeepView>::V>) {
        assert(nodes_of::<T>(a) == nodes_of::<T>(b));
        assert(a.len() == nodes_of::<T>(a).len());
        assert(b.len() == nodes_of::<T>(b).len());
        assert forall|i: int| 0 <= i < a.len() implies a[i] == b[i] by {
            assert(nodes_of::<T>(a)[i] == T::node_of(a[i]));
            assert(nodes_of::<T>(b)[i] == T::node_of(b[i]));
            T::lemma_node_tells_value(a[i], b[i]);
        }
        assert(a =~= b);
    }

    fn write(&self, out: &mut String) {
        let ghost values = self.deep_view();
        let ghost before = out@;
        write_list(self.len(), out);
        let ghost head = out@;
        let mut i: usize = 0;
        proof {
            lemma_deep_view_entries(*self);
            assert(nodes_of::<T>(values.take(0)) =~= Seq::<Node>::empty());
            assert(head + encode_all(nodes_of::<T>(values.take(0))) =~= head);
        }
        while i < self.len()
            invariant
                i <= self.len(),
                values == self.deep_view(),
                out@ == head + encode_all(nodes_of::<T>(values.take(i as int))),
            decreases self.len() - i,
        {
            self[i].write(out);
            proof {
                lemma_deep_view_take_next(*self, i as int);
                let sofar = nodes_of::<T>(values.take(i as int));
                let one = T::node_of(self[i as int].deep_view());
                assert(nodes_of::<T>(values.take(i + 1)) =~= sofar.push(one));
                lemma_encode_all_push(sofar, one);
                assert(out@ =~= head + (encode_all(sofar) + encode(one)));
            }
            i += 1;
        }
        proof {
            lemma_deep_view_take_all(*self);
            assert(nodes_of::<T>(values).len() == self.len());
            assert(out@ =~= before + encode(Self::node_of(values)));
        }
    }

    fn read(text: &str, at: usize) -> (r: Option<(Vec<T>, usize)>) {
        let mut list = match ListReader::open(text, at) {
            Some(list) => list,
            None => {
                return None;
            },
        };
        let mut values: Vec<T> = Vec::new();
        proof {
            lemma_deep_view_entries(values);
            assert(nodes_of::<T>(values.deep_view()) =~= list.done());
        }
        while list.remaining() > 0
            invariant
                list.wf(),
                list.text() == text@,
                list.list() == at,
                list.done() == nodes_of::<T>(values.deep_view()),
            decreases list.left(),
        {
            let ghost before = values;
            match list.item::<T>() {
                Some(value) => {
                    values.push(value);
                    proof {
                        lemma_deep_view_push(before, values, value);
                        assert(nodes_of::<T>(values.deep_view()) =~= nodes_of::<T>(
                            before.deep_view(),
                        ).push(T::node_of(value.deep_view())));
                    }
                },
                None => {
                    proof {
                        assert forall|whole: Seq<<T as DeepView>::V>|
                            !(decode(text@, at as int) matches Some((node, _)) && node
                                == #[trigger] Self::node_of(whole)) by {
                            match decode(text@, at as int) {
                                Some((Node::List(items), _)) => {
                                    if items == nodes_of::<T>(whole) {
                                        let k = list.done().len() as int;
                                        assert(items[k] == T::node_of(whole[k]));
                                    }
                                },
                                _ => {},
                            }
                        }
                    }
                    return None;
                },
            }
        }
        let next = list.close();
        Some((values, next))
    }
}

/// The tree of a text that may be missing.
pub open spec fn optional_node(value: Option<Seq<char>>) -> Node {
    match value {
        Some(text) => Node::List(seq![Node::Text(text)]),
        None => Node::List(Seq::empty()),
    }
}

impl Stored for Option<String> {
    open spec fn node_of(value: Option<Seq<char>>) -> Node {
        optional_node(value)
    }

    proof fn lemma_node_tells_value(a: Option<Seq<char>>, b: Option<Seq<char>>) {
        match (a, b) {
            (Some(x), Some(y)) => {
                assert(seq![Node::Text(x)][0] == seq![Node::Text(y)][0]);
            },
            (Some(x), None) => {
                assert(seq![Node::Text(x)].len() == 1);
            },
            (None, Some(y)) => {
                assert(seq![Node::Text(y)].len() == 1);
            },
            (None, None) => {},
        }
    }

    fn write(&self, out: &mut String) {
        let ghost before = out@;
        match self {
            Some(text) => {
                write_list(1, out);
                text.write(out);
                proof {
                    let one = Node::Text(text@);
                    lemma_encode_all_push(Seq::empty(), one);
                    assert(Seq::<Node>::empty().push(one) =~= seq![one]);
                    assert(out@ =~= before + encode(optional_node(Some(text@))));
                }
            },
            None => {
                write_list(0, out);
                proof {
                    assert(out@ =~= before + encode(optional_node(None)));
                }
            },
        }
    }

    fn read(text: &str, at: usize) -> (r: Option<(Option<String>, usize)>) {
        let mut list = match ListReader::open(text, at) {
            Some(list) => list,
            None => {
                proof {
                    assert forall|value: Option<Seq<char>>| optional_node(value) is List by {}
                }
                return None;
            },
        };
        if list.remaining() == 0 {
            let next = list.close();
            proof {
                assert(list.done() =~= Seq::<Node>::empty());
            }
            Some((None, next))
        } else if list.remaining() == 1 {
            match list.item::<String>() {
                Some(written) => {
                    let next = list.close();
                    proof {
                        assert(list.done() =~= seq![Node::Text(written@)]);
                    }
                    Some((Some(written), next))
                },
                None => {
                    proof {
                        assert forall|value: Option<Seq<char>>|
                            !(decode(text@, at as int) matches Some((node, _)) && node
                                == #[trigger] Self::node_of(value)) by {
                            match value {
                                Some(x) => {
                                    assert(seq![Node::Text(x)][0] == String::node_of(x));
                                    assert(seq![Node::Text(x)].len() == 1);
                                },
                                None => {},
                            }
                        }
                    }
                    None
                },
            }
        } else {
            proof {
                assert forall|value: Option<Seq<char>>|
                    !(decode(text@, at as int) matches Some((node, _)) && node
                        == #[trigger] Self::node_of(value)) by {
                    list.lemma_announced();
                    match value {
                        Some(x) => {
                            assert(seq![Node::Text(x)].len() == 1);
                        },
                        None => {},
                    }
                }
            }
            None
        }
    }
}

/// The tree of an attribute.
pub open spec fn attribute_node(value: AttributeView) -> Node {
    Node::List(seq![String::node_of(value.path), String::node_of(value.tokens)])
}

impl Stored for Attribute {
    open spec fn node_of(value: AttributeView) -> Node {
        attribute_node(value)
    }

    proof fn lemma_node_tells_value(a: AttributeView, b: AttributeView) {
        let x = attribute_node(a)->List_0;
        let y = attribute_node(b)->List_0;
        assert(x[0] == y[0] && x[1] == y[1]);
    }

    fn write(&self, out: &mut String) {
        let ghost before = out@;
        write_list(2, out);
        self.path.write(out);
        self.tokens.write(out);
        proof {
            lemma_encode_list(attribute_node(self@)->List_0);
            assert(out@ =~= before + encode(attribute_node(self@)));
        }
    }

    fn read(text: &str, at: usize) -> (r: Option<(Attribute, usize)>) {
        let mut list = ListReader::open(text, at)?;
        if list.remaining() != 2 {
            proof {
                list.lemma_announced();
            }
            return None;
        }
        let path = list.item::<String>()?;
        let tokens = list.item::<String>()?;
        let next = list.close();
        let value = Attribute { path, tokens };
        proof {
            assert(list.done() =~= attribute_node(value@)->List_0);
        }
        Some((value, next))
    }
}

/// The tree of the kind of a generic parameter.
pub open spec fn kind_node(value: GenericParamKind) -> Node {
    String::node_of(
        match value {
            GenericParamKind::Lifetime => "lifetime"@,
            GenericParamKind::Type => "type"@,
            GenericParamKind::Const => "const"@,
        },
    )
}

impl Stored for GenericParamKind {
    open spec fn node_of(value: GenericParamKind) -> Node {
        kind_node(value)
    }

    proof fn lemma_node_tells_value(a: GenericParamKind, b: GenericParamKind) {
        reveal_strlit("lifetime");
        reveal_strlit("type");
        reveal_strlit("const");
        assert("lifetime"@.len() == 8 && "type"@.len() == 4 && "const"@.len() == 5);
    }

    fn write(&self, out: &mut String) {
        String::from_str(
            match self {
                GenericParamKind::Lifetime => "lifetime",
                GenericParamKind::Type => "type",
                GenericParamKind::Const => "const",
            },
        ).write(out);
    }

    fn read(text: &str, at: usize) -> (r: Option<(GenericParamKind, usize)>) {
        let (written, next) = String::read(text, at)?;
        if written == String::from_str("lifetime") {
            Some((GenericParamKind::Lifetime, next))
        } else if written == String::from_str("type") {
            Some((GenericParamKind::Type, next))
        } else if written == String::from_str("const") {
            Some((GenericParamKind::Const, next))
        } else {
            None
        }
    }
}

/// The tree of a generic parameter.
pub open spec fn generic_param_node(value: GenericParamView) -> Node {
    Node::List(
        seq![
            GenericParamKind::node_of(value.kind),
            String::node_of(value.ident),
            String::node_of(value.bounds),
            String::node_of(value.default),
        ],
    )
}

impl Stored for GenericParam {
    open spec fn node_of(value: GenericParamView) -> Node {
        generic_param_node(value)
    }

    proof fn lemma_node_tells_value(a: GenericParamView, b: GenericParamView) {
        let x = generic_param_node(a)->List_0;
        let y = generic_param_node(b)->List_0;
        assert(x[0] == y[0] && x[1] == y[1] && x[2] == y[2] && x[3] == y[3]);
        GenericParamKind::lemma_node_tells_value(a.kind, b.kind);
    }

    fn write(&self, out: &mut String) {
        let ghost before = out@;
        write_list(4, out);
        self.kind.write(out);
        self.ident.write(out);
        self.bounds.write(out);
        self.default.write(out);
        proof {
            lemma_encode_list(generic_param_node(self@)->List_0);
            assert(out@ =~= before + encode(generic_param_node(self@)));
        }
    }

    fn read(text: &str, at: usize) -> (r: Option<(GenericParam, usize)>) {
        let mut list = ListReader::open(text, at)?;
        if list.remaining() != 4 {
            proof {
                list.lemma_announced();
            }
            return None;
        }
        let kind = list.item::<GenericParamKind>()?;
        let ident = list.item::<String>()?;
        let bounds = list.item::<String>()?;
        let default = list.item::<String>()?;
        let next = list.close();
        let value = GenericParam { kind, ident, bounds, default };
        proof {
            assert(list.done() =~= generic_param_node(value@)->List_0);
        }
        Some((value, next))
    }
}

/// The tree of generic parameters and their `where` clause.
pub open spec fn generics_node(value: GenericsView) -> Node {
    Node::List(
        seq![Vec::<GenericParam>::node_of(value.params), String::node_of(value.where_clause)],
    )
}

impl Stored for Generics {
    open spec fn node_of(value: GenericsView) -> Node {
        generics_node(value)
    }

    proof fn lemma_node_tells_value(a: GenericsView, b: GenericsView) {
        let x = generics_node(a)->List_0;
        let y = generics_node(b)->List_0;
        assert(x[0] == y[0] && x[1] == y[1]);
        Vec::<GenericParam>::lemma_node_tells_value(a.params, b.params);
    }

    fn write(&self, out: &mut String) {
        let ghost before = out@;
        write_list(2, out);
        self.params.write(out);
        self.where_clause.write(out);
        proof {
            lemma_encode_list(generics_node(self@)->List_0);
            assert(out@ =~= before + encode(generics_node(self@)));
        }
    }

    fn read(text: &str, at: usize) -> (r: Option<(Generics, usize)>) {
        let mut list = ListReader::open(text, at)?;
        if list.remaining() != 2 {
            proof {
                list.lemma_announced();
            }
            return None;
        }
        let params = list.item::<Vec<GenericParam>>()?;
        let where_clause = list.item::<String>()?;
        let next = list.close();
        let value = Generics { params, where_clause };
        proof {
            assert(list.done() =~= generics_node(value@)->List_0);
        }
        Some((value, next))
    }
}

/// The tree of a variant.
pub open spec fn variant_node(value: EnumDispatchVariantView) -> Node {
    Node::List(
        seq![
            bool::node_of(value.deref),
            Vec::<Attribute>::node_of(value.attrs),
            String::node_of(value.ident),
            Vec::<Attribute>::node_of(value.field_attrs),
            String::node_of(value.ty),
        ],
    )
}

impl Stored for EnumDispatchVariant {
    open spec fn node_of(value: EnumDispatchVariantView) -> Node {
        variant_node(value)
    }

    proof fn lemma_node_tells_value(a: EnumDispatchVariantView, b: EnumDispatchVariantView) {
        let x = variant_node(a)->List_0;
        let y = variant_node(b)->List_0;
        assert(x[0] == y[0] && x[1] == y[1] && x[2] == y[2] && x[3] == y[3] && x[4] == y[4]);
        bool::lemma_node_tells_value(a.deref, b.deref);
        Vec::<Attribute>::lemma_node_tells_value(a.attrs, b.attrs);
        Vec::<Attribute>::lemma_node_tells_value(a.field_attrs, b.field_attrs);
    }

    fn write(&self, out: &mut String) {
        let ghost before = out@;
        write_list(5, out);
        self.deref.write(out);
        self.attrs.write(out);
        self.ident.write(out);
        self.field_attrs.write(out);
        self.ty.write(out);
        proof {
            lemma_encode_list(variant_node(self@)->List_0);
            assert(out@ =~= before + encode(variant_node(self@)));
        }
    }

    fn read(text: &str, at: usize) -> (r: Option<(EnumDispatchVariant, usize)>) {
        let mut list = ListReader::open(text, at)?;
        if list.remaining() != 5 {
            proof {
                list.lemma_announced();
            }
            return None;
        }
        let deref = list.item::<bool>()?;
        let attrs = list.item::<Vec<Attribute>>()?;
        let ident = list.item::<String>()?;
        let field_attrs = list.item::<Vec<Attribute>>()?;
        let ty = list.item::<String>()?;
        let next = list.close();
        let value = EnumDispatchVariant { deref, attrs, ident, field_attrs, ty };
        proof {
            assert(list.done() =~= variant_node(value@)->List_0);
        }
        Some((value, next))
    }
}

/// The tree of a union.
pub open spec fn enum_node(value: EnumDispatchItemView) -> Node {
    Node::List(
        seq![
            Vec::<Attribute>::node_of(value.attrs),
            String::node_of(value.vis),
            String::node_of(value.ident),
            Generics::node_of(value.generics),
            Vec::<EnumDispatchVariant>::node_of(value.variants),
        ],
    )
}

impl Stored for EnumDispatchItem {
    open spec fn node_of(value: EnumDispatchItemView) -> Node {
        enum_node(value)
    }

    proof fn lemma_node_tells_value(a: EnumDispatchItemView, b: EnumDispatchItemView) {
        let x = enum_node(a)->List_0;
        let y = enum_node(b)->List_0;
        assert(x[0] == y[0] && x[1] == y[1] && x[2] == y[2] && x[3] == y[3] && x[4] == y[4]);
        Vec::<Attribute>::lemma_node_tells_value(a.attrs, b.attrs);
        Generics::lemma_node_tells_value(a.generics, b.generics);
        Vec::<EnumDispatchVariant>::lemma_node_tells_value(a.variants, b.variants);
    }

    fn write(&self, out: &mut String) {
        let ghost before = out@;
        write_list(5, out);
        self.attrs.write(out);
        self.vis.write(out);
        self.ident.write(out);
        self.generics.write(out);
        self.variants.write(out);
        proof {
            lemma_encode_list(enum_node(self@)->List_0);
            assert(out@ =~= before + encode(enum_node(self@)));
        }
    }

    fn read(text: &str, at: usize) -> (r: Option<(EnumDispatchItem, usize)>) {
        let mut list = ListReader::open(text, at)?;
        if list.remaining() != 5 {
            proof {
                list.lemma_announced();
            }
            return None;
        }
        let attrs = list.item::<Vec<Attribute>>()?;
        let vis = list.item::<String>()?;
        let ident = list.item::<String>()?;
        let generics = list.item::<Generics>()?;
        let variants = list.item::<Vec<EnumDispatchVariant>>()?;
        let next = list.close();
        let value = EnumDispatchItem { attrs, vis, ident, generics, variants };
        proof {
            assert(list.done() =~= enum_node(value@)->List_0);
        }
        Some((value, next))
    }
}

/// The tree of a parameter.
pub open spec fn fn_arg_node(value: FnArgView) -> Node {
    match value {
        FnArgView::Receiver { reference, mutable, tokens } => Node::List(
            seq![
                String::node_of("self"@),
                bool::node_of(reference),
                bool::node_of(mutable),
                String::node_of(tokens),
            ],
        ),
        FnArgView::Typed { ident, tokens } => Node::List(
            seq![
                String::node_of("typed"@),
                Option::<String>::node_of(ident),
                String::node_of(tokens),
            ],
        ),
    }
}

impl Stored for FnArg {
    open spec fn node_of(value: FnArgView) -> Node {
        fn_arg_node(value)
    }

    proof fn lemma_node_tells_value(a: FnArgView, b: FnArgView) {
        let x = fn_arg_node(a)->List_0;
        let y = fn_arg_node(b)->List_0;
        assert(x.len() == y.len());
        assert(x[0] == y[0] && x[1] == y[1] && x[2] == y[2]);
        match (a, b) {
            (
                FnArgView::Receiver { reference, mutable, .. },
                FnArgView::Receiver { reference: other_reference, mutable: other_mutable, .. },
            ) => {
                assert(x[3] == y[3]);
                bool::lemma_node_tells_value(reference, other_reference);
                bool::lemma_node_tells_value(mutable, other_mutable);
            },
            (FnArgView::Typed { ident, .. }, FnArgView::Typed { ident: other_ident, .. }) => {
                Option::<String>::lemma_node_tells_value(ident, other_ident);
            },
            _ => {},
        }
    }

    fn write(&self, out: &mut String) {
        let ghost before = out@;
        match self {
            FnArg::Receiver { reference, mutable, tokens } => {
                write_list(4, out);
                String::from_str("self").write(out);
                reference.write(out);
                mutable.write(out);
                tokens.write(out);
            },
            FnArg::Typed { ident, tokens } => {
                write_list(3, out);
                String::from_str("typed").write(out);
                ident.write(out);
                tokens.write(out);
            },
        }
        proof {
            lemma_encode_list(fn_arg_node(self@)->List_0);
            assert(out@ =~= before + encode(fn_arg_node(self@)));
        }
    }

    fn read(text: &str, at: usize) -> (r: Option<(FnArg, usize)>) {
        let mut list = ListReader::open(text, at)?;
        proof {
            list.lemma_announced();
            reveal_strlit("self");
            reveal_strlit("typed");
            assert("self"@.len() == 4 && "typed"@.len() == 5);
        }
        let chosen = list.item::<String>()?;
        proof {
            list.lemma_read_so_far();
        }
        if chosen == String::from_str("self") {
            if list.remaining() != 3 {
                return None;
            }
            let reference = list.item::<bool>()?;
            let mutable = list.item::<bool>()?;
            let tokens = list.item::<String>()?;
            let next = list.close();
            let value = FnArg::Receiver { reference, mutable, tokens };
            proof {
                assert(list.done() =~= fn_arg_node(value@)->List_0);
            }
            Some((value, next))
        } else if chosen == String::from_str("typed") {
            if list.remaining() != 2 {
                return None;
            }
            let ident = list.item::<Option<String>>()?;
            let tokens = list.item::<String>()?;
            let next = list.close();
            let value = FnArg::Typed { ident, tokens };
            proof {
                assert(list.done() =~= fn_arg_node(value@)->List_0);
            }
            Some((value, next))
        } else {
            None
        }
    }
}

/// The tree of a signature.
pub open spec fn signature_node(value: SignatureView) -> Node {
    Node::List(
        seq![
            String::node_of(value.qualifiers),
            String::node_of(value.ident),
            Generics::node_of(value.generics),
            Vec::<FnArg>::node_of(value.inputs),
            String::node_of(value.output),
            Vec::<String>::node_of(value.associated),
        ],
    )
}

impl Stored for Signature {
    open spec fn node_of(value: SignatureView) -> Node {
        signature_node(value)
    }

    proof fn lemma_node_tells_value(a: SignatureView, b: SignatureView) {
        let x = signature_node(a)->List_0;
        let y = signature_node(b)->List_0;
        assert(x[0] == y[0] && x[1] == y[1] && x[2] == y[2] && x[3] == y[3] && x[4] == y[4]
            && x[5] == y[5]);
        Generics::lemma_node_tells_value(a.generics, b.generics);
        Vec::<FnArg>::lemma_node_tells_value(a.inputs, b.inputs);
        Vec::<String>::lemma_node_tells_value(a.associated, b.associated);
    }

    fn write(&self, out: &mut String) {
        let ghost before = out@;
        write_list(6, out);
        self.qualifiers.write(out);
        self.ident.write(out);
        self.generics.write(out);
        self.inputs.write(out);
        self.output.write(out);
        self.associated.write(out);
        proof {
            lemma_encode_list(signature_node(self@)->List_0);
            assert(out@ =~= before + encode(signature_node(self@)));
        }
    }

    fn read(text: &str, at: usize) -> (r: Option<(Signature, usize)>) {
        let mut list = ListReader::open(text, at)?;
        if list.remaining() != 6 {
            proof {
                list.lemma_announced();
            }
            return None;
        }
        let qualifiers = list.item::<String>()?;
        let ident = list.item::<String>()?;
        let generics = list.item::<Generics>()?;
        let inputs = list.item::<Vec<FnArg>>()?;
        let output = list.item::<String>()?;
        let associated = list.item::<Vec<String>>()?;
        let next = list.close();
        let value = Signature { qualifiers, ident, generics, inputs, output, associated };
        proof {
            assert(list.done() =~= signature_node(value@)->List_0);
        }
        Some((value, next))
    }
}

/// The tree of a method of an interface.
pub open spec fn method_node(value: TraitItemMethodView) -> Node {
    Node::List(seq![Vec::<Attribute>::node_of(value.attrs), Signature::node_of(value.sig)])
}

impl Stored for TraitItemMethod {
    open spec fn node_of(value: TraitItemMethodView) -> Node {
        method_node(value)
    }

    proof fn lemma_node_tells_value(a: TraitItemMethodView, b: TraitItemMethodView) {
        let x = method_node(a)->List_0;
        let y = method_node(b)->List_0;
        assert(x[0] == y[0] && x[1] == y[1]);
        Vec::<Attribute>::lemma_node_tells_value(a.attrs, b.attrs);
        Signature::lemma_node_tells_value(a.sig, b.sig);
    }

    fn write(&self, out: &mut String) {
        let ghost before = out@;
        write_list(2, out);
        self.attrs.write(out);
        self.sig.write(out);
        proof {
            lemma_encode_list(method_node(self@)->List_0);
            assert(out@ =~= before + encode(method_node(self@)));
        }
    }

    fn read(text: &str, at: usize) -> (r: Option<(TraitItemMethod, usize)>) {
        let mut list = ListReader::open(text, at)?;
        if list.remaining() != 2 {
            proof {
                list.lemma_announced();
            }
            return None;
        }
        let attrs = list.item::<Vec<Attribute>>()?;
        let sig = list.item::<Signature>()?;
        let next = list.close();
        let value = TraitItemMethod { attrs, sig };
        proof {
            assert(list.done() =~= method_node(value@)->List_0);
        }
        Some((value, next))
    }
}

/// The tree of an associated constant of an interface.
pub open spec fn const_node(value: TraitItemConstView) -> Node {
    Node::List(
        seq![
            Vec::<Attribute>::node_of(value.attrs),
            String::node_of(value.ident),
            String::node_of(value.ty),
            Option::<String>::node_of(value.default),
        ],
    )
}

impl Stored for TraitItemConst {
    open spec fn node_of(value: TraitItemConstView) -> Node {
        const_node(value)
    }

    proof fn lemma_node_tells_value(a: TraitItemConstView, b: TraitItemConstView) {
        let x = const_node(a)->List_0;
        let y = const_node(b)->List_0;
        assert(x[0] == y[0] && x[1] == y[1] && x[2] == y[2] && x[3] == y[3]);
        Vec::<Attribute>::lemma_node_tells_value(a.attrs, b.attrs);
        Option::<String>::lemma_node_tells_value(a.default, b.default);
    }

    fn write(&self, out: &mut String) {
        let ghost before = out@;
        write_list(4, out);
        self.attrs.write(out);
        self.ident.write(out);
        self.ty.write(out);
        self.default.write(out);
        proof {
            lemma_encode_list(const_node(self@)->List_0);
            assert(out@ =~= before + encode(const_node(self@)));
        }
    }

    fn read(text: &str, at: usize) -> (r: Option<(TraitItemConst, usize)>) {
        let mut list = ListReader::open(text, at)?;
        if list.remaining() != 4 {
            proof {
                list.lemma_announced();
            }
            return None;
        }
        let attrs = list.item::<Vec<Attribute>>()?;
        let ident = list.item::<String>()?;
        let ty = list.item::<String>()?;
        let default = list.item::<Option<String>>()?;
        let next = list.close();
        let value = TraitItemConst { attrs, ident, ty, default };
        proof {
            assert(list.done() =~= const_node(value@)->List_0);
        }
        Some((value, next))
    }
}

/// The tree of an item of an interface.
pub open spec fn trait_item_node(value: TraitItemView) -> Node {
    match value {
        TraitItemView::Method(method) => Node::List(
            seq![String::node_of("method"@), TraitItemMethod::node_of(method)],
        ),
        TraitItemView::Const(constant) => Node::List(
            seq![String::node_of("const"@), TraitItemConst::node_of(constant)],
        ),
        TraitItemView::Type(ident) => Node::List(
            seq![String::node_of("type"@), String::node_of(ident)],
        ),
        TraitItemView::Other => Node::List(seq![String::node_of("other"@)]),
    }
}

/// The names of the four kinds of item differ.
proof fn lemma_item_names_differ()
    ensures
        "method"@ != "const"@,
        "method"@ != "type"@,
        "method"@ != "other"@,
        "const"@ != "type"@,
        "const"@ != "other"@,
        "type"@ != "other"@,
{
    reveal_strlit("method");
    reveal_strlit("const");
    reveal_strlit("type");
    reveal_strlit("other");
    assert("method"@.len() == 6 && "const"@.len() == 5 && "type"@.len() == 4);
    assert("const"@[0] == 'c' && "other"@[0] == 'o');
}

impl Stored for TraitItem {
    open spec fn node_of(value: TraitItemView) -> Node {
        trait_item_node(value)
    }

    proof fn lemma_node_tells_value(a: TraitItemView, b: TraitItemView) {
        lemma_item_names_differ();
        let x = trait_item_node(a)->List_0;
        let y = trait_item_node(b)->List_0;
        assert(x.len() == y.len());
        assert(x[0] == y[0]);
        match (a, b) {
            (TraitItemView::Method(m), TraitItemView::Method(n)) => {
                assert(x[1] == y[1]);
                TraitItemMethod::lemma_node_tells_value(m, n);
            },
            (TraitItemView::Const(m), TraitItemView::Const(n)) => {
                assert(x[1] == y[1]);
                TraitItemConst::lemma_node_tells_value(m, n);
            },
            (TraitItemView::Type(m), TraitItemView::Type(n)) => {
                assert(x[1] == y[1]);
            },
            _ => {},
        }
    }

    fn write(&self, out: &mut String) {
        let ghost before = out@;
        match self {
            TraitItem::Method(method) => {
                write_list(2, out);
                String::from_str("method").write(out);
                method.write(out);
            },
            TraitItem::Const(constant) => {
                write_list(2, out);
                String::from_str("const").write(out);
                constant.write(out);
            },
            TraitItem::Type(ident) => {
                write_list(2, out);
                String::from_str("type").write(out);
                ident.write(out);
            },
            TraitItem::Other => {
                write_list(1, out);
                String::from_str("other").write(out);
            },
        }
        proof {
            lemma_encode_list(trait_item_node(self@)->List_0);
            assert(out@ =~= before + encode(trait_item_node(self@)));
        }
    }

    fn read(text: &str, at: usize) -> (r: Option<(TraitItem, usize)>) {
        let mut list = ListReader::open(text, at)?;
        proof {
            list.lemma_announced();
            lemma_item_names_differ();
        }
        let chosen = list.item::<String>()?;
        proof {
            list.lemma_read_so_far();
        }
        if chosen == String::from_str("other") {
            if list.remaining() != 0 {
                return None;
            }
            let next = list.close();
            let value = TraitItem::Other;
            proof {
                assert(list.done() =~= trait_item_node(value@)->List_0);
            }
            return Some((value, next));
        }
        if list.remaining() != 1 {
            proof {
                assert forall|value: TraitItemView|
                    !(decode(text@, at as int) matches Some((node, _)) && node
                        == #[trigger] Self::node_of(value)) by {
                    let items = trait_item_node(value)->List_0;
                    assert(items[0] is Text);
                    match value {
                        TraitItemView::Other => {
                            assert(items[0] == String::node_of("other"@));
                        },
                        _ => {
                            assert(items.len() == 2);
                        },
                    }
                }
            }
            return None;
        }
        if chosen == String::from_str("method") {
            let method = list.item::<TraitItemMethod>()?;
            let next = list.close();
            let value = TraitItem::Method(method);
            proof {
                assert(list.done() =~= trait_item_node(value@)->List_0);
            }
            Some((value, next))
        } else if chosen == String::from_str("const") {
            let constant = list.item::<TraitItemConst>()?;
            let next = list.close();
            let value = TraitItem::Const(constant);
            proof {
                assert(list.done() =~= trait_item_node(value@)->List_0);
            }
            Some((value, next))
        } else if chosen == String::from_str("type") {
            let ident = list.item::<String>()?;
            let next = list.close();
            let value = TraitItem::Type(ident);
            proof {
                assert(list.done() =~= trait_item_node(value@)->List_0);
            }
            Some((value, next))
        } else {
            None
        }
    }
}

/// The tree of an interface.
pub open spec fn trait_node(value: ItemTraitView) -> Node {
    Node::List(
        seq![
            String::node_of(value.ident),
            Generics::node_of(value.generics),
            bool::node_of(value.unsafety),
            Vec::<TraitItem>::node_of(value.items),
        ],
    )
}

impl Stored for ItemTrait {
    open spec fn node_of(value: ItemTraitView) -> Node {
        trait_node(value)
    }

    proof fn lemma_node_tells_value(a: ItemTraitView, b: ItemTraitView) {
        let x = trait_node(a)->List_0;
        let y = trait_node(b)->List_0;
        assert(x[0] == y[0] && x[1] == y[1] && x[2] == y[2] && x[3] == y[3]);
        Generics::lemma_node_tells_value(a.generics, b.generics);
        bool::lemma_node_tells_value(a.unsafety, b.unsafety);
        Vec::<TraitItem>::lemma_node_tells_value(a.items, b.items);
    }

    fn write(&self, out: &mut String) {
        let ghost before = out@;
        write_list(4, out);
        self.ident.write(out);
        self.generics.write(out);
        self.unsafety.write(out);
        self.items.write(out);
        proof {
            lemma_encode_list(trait_node(self@)->List_0);
            assert(out@ =~= before + encode(trait_node(self@)));
        }
    }

    fn read(text: &str, at: usize) -> (r: Option<(ItemTrait, usize)>) {
        let mut list = ListReader::open(text, at)?;
        if list.remaining() != 4 {
            proof {
                list.lemma_announced();
            }
            return None;
        }
        let ident = list.item::<String>()?;
        let generics = list.item::<Generics>()?;
        let unsafety = list.item::<bool>()?;
        let items = list.item::<Vec<TraitItem>>()?;
        let next = list.close();
        let value = ItemTrait { ident, generics, unsafety, items };
        proof {
            assert(list.done() =~= trait_node(value@)->List_0);
        }
        Some((value, next))
    }
}

/// The tree of a declaration as the registry keeps it.
pub open spec fn definition_node(value: DefinitionView) -> Node {
    match value {
        DefinitionView::Trait(item) => Node::List(
            seq![String::node_of("trait"@), ItemTrait::node_of(item)],
        ),
        DefinitionView::Enum(item) => Node::List(
            seq![String::node_of("enum"@), EnumDispatchItem::node_of(item)],
        ),
    }
}

impl Stored for Definition {
    open spec fn node_of(value: DefinitionView) -> Node {
        definition_node(value)
    }

    proof fn lemma_node_tells_value(a: DefinitionView, b: DefinitionView) {
        reveal_strlit("trait");
        reveal_strlit("enum");
        assert("trait"@.len() == 5 && "enum"@.len() == 4);
        let x = definition_node(a)->List_0;
        let y = definition_node(b)->List_0;
        assert(x[0] == y[0] && x[1] == y[1]);
        match (a, b) {
            (DefinitionView::Trait(m), DefinitionView::Trait(n)) => {
                ItemTrait::lemma_node_tells_value(m, n);
            },
            (DefinitionView::Enum(m), DefinitionView::Enum(n)) => {
                EnumDispatchItem::lemma_node_tells_value(m, n);
            },
            _ => {},
        }
    }

    fn write(&self, out: &mut String) {
        let ghost before = out@;
        write_list(2, out);
        match self {
            Definition::Trait(item) => {
                String::from_str("trait").write(out);
                item.write(out);
            },
            Definition::Enum(item) => {
                String::from_str("enum").write(out);
                item.write(out);
            },
        }
        proof {
            lemma_encode_list(definition_node(self@)->List_0);
            assert(out@ =~= before + encode(definition_node(self@)));
        }
    }

    fn read(text: &str, at: usize) -> (r: Option<(Definition, usize)>) {
        let mut list = ListReader::open(text, at)?;
        proof {
            list.lemma_announced();
            reveal_strlit("trait");
            reveal_strlit("enum");
            assert("trait"@.len() == 5 && "enum"@.len() == 4);
        }
        if list.remaining() != 2 {
            return None;
        }
        let chosen = list.item::<String>()?;
        proof {
            list.lemma_read_so_far();
        }
        if chosen == String::from_str("trait") {
            let item = list.item::<ItemTrait>()?;
            let next = list.close();
            let value = Definition::Trait(item);
            proof {
                assert(list.done() =~= definition_node(value@)->List_0);
            }
            Some((value, next))
        } else if chosen == String::from_str("enum") {
            let item = list.item::<EnumDispatchItem>()?;
            let next = list.close();
            let value = Definition::Enum(item);
            proof {
                assert(list.done() =~= definition_node(value@)->List_0);
            }
            Some((value, next))
        } else {
            None
        }
    }
}

} // verus!
