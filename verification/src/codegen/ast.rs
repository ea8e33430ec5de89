//! The parts of a Rust source file that matter for metric names.

use crate::seqs;
use vstd::prelude::*;

verus! {

/// An attribute: its name, if it is a single word, and its text, if it has the
/// form `name = "text"`.
#[derive(Debug)]
pub struct AttrNode {
    pub name: Option<String>,
    pub value: Option<String>,
}

/// An expression as far as it can make up the value of a constant.
#[derive(Debug)]
pub enum ExprNode {
    Str(String),
    OtherLiteral,
    /// A macro call with its tokens as text.
    Macro(String),
    /// A method call on something.
    MethodCall(Box<ExprNode>),
    Other,
}

#[derive(Debug)]
pub struct ConstNode {
    pub public: bool,
    pub name: String,
    pub attrs: Vec<AttrNode>,
    /// The words of the path that the constant's type is a reference to, if it
    /// is one.
    pub referent: Option<Vec<String>>,
    pub value: ExprNode,
}

#[derive(Debug)]
pub struct ModNode {
    pub public: bool,
    pub name: String,
    pub attrs: Vec<AttrNode>,
    /// What the module holds, if that is in the same file.
    pub items: Option<Vec<ItemNode>>,
}

#[derive(Debug)]
pub enum ItemNode {
    Const(ConstNode),
    /// A macro call, or a macro definition if it has a name, with its tokens as
    /// text.
    Macro { name: Option<String>, tokens: String },
    Mod(ModNode),
    Other,
}

pub struct AttrView {
    pub name: Option<Seq<char>>,
    pub value: Option<Seq<char>>,
}

pub enum ExprView {
    Str(Seq<char>),
    OtherLiteral,
    Macro(Seq<char>),
    MethodCall(Box<ExprView>),
    Other,
}

pub struct ConstView {
    pub public: bool,
    pub name: Seq<char>,
    pub attrs: Seq<AttrView>,
    pub referent: Option<Seq<Seq<char>>>,
    pub value: ExprView,
}

pub struct ModView {
    pub public: bool,
    pub name: Seq<char>,
    pub attrs: Seq<AttrView>,
    pub items: Option<Seq<ItemView>>,
}

pub enum ItemView {
    Const(ConstView),
    Macro { name: Option<Seq<char>>, tokens: Seq<char> },
    Mod(ModView),
    Other,
}

impl View for AttrNode {
    type V = AttrView;

    open spec fn view(&self) -> AttrView {
        AttrView { name: seqs::text(self.name), value: seqs::text(self.value) }
    }
}

pub open spec fn attr_views(attrs: Seq<AttrNode>) -> Seq<AttrView> {
    attrs.map_values(|attr: AttrNode| attr@)
}

pub open spec fn expr_view(node: ExprNode) -> ExprView
    decreases node,
{
    match node {
        ExprNode::Str(value) => ExprView::Str(value@),
        ExprNode::OtherLiteral => ExprView::OtherLiteral,
        ExprNode::Macro(tokens) => ExprView::Macro(tokens@),
        ExprNode::MethodCall(receiver) => ExprView::MethodCall(Box::new(expr_view(*receiver))),
        ExprNode::Other => ExprView::Other,
    }
}

impl View for ConstNode {
    type V = ConstView;

    open spec fn view(&self) -> ConstView {
        ConstView {
            public: self.public,
            name: self.name@,
            attrs: attr_views(self.attrs@),
            referent: match self.referent {
                Some(words) => Some(seqs::texts(words@)),
                None => None,
            },
            value: expr_view(self.value),
        }
    }
}

pub open spec fn mod_view(node: ModNode) -> ModView
    decreases node,
{
    ModView {
        public: node.public,
        name: node.name@,
        attrs: attr_views(node.attrs@),
        items: match node.items {
            Some(items) => Some(
                Seq::new(
                    items@.len(),
                    |i: int|
                        if 0 <= i < items@.len() {
                            item_view(items@[i])
                        } else {
                            ItemView::Other
                        },
                ),
            ),
            None => None,
        },
    }
}

pub open spec fn item_view(node: ItemNode) -> ItemView
    decreases node,
{
    match node {
        ItemNode::Const(constant) => ItemView::Const(constant@),
        ItemNode::Macro { name, tokens } => ItemView::Macro {
            name: seqs::text(name),
            tokens: tokens@,
        },
        ItemNode::Mod(module) => ItemView::Mod(mod_view(module)),
        ItemNode::Other => ItemView::Other,
    }
}

pub open spec fn item_views(items: Seq<ItemNode>) -> Seq<ItemView> {
    items.map_values(|item: ItemNode| item_view(item))
}

pub open spec fn parsed_items(items: Option<Vec<ItemNode>>) -> Option<Seq<ItemView>> {
    match items {
        Some(items) => Some(item_views(items@)),
        None => None,
    }
}

/// The items of a Rust source file, if it is one.
pub uninterp spec fn source_items(content: Seq<char>) -> Option<Seq<ItemView>>;

/// `syn::Item`, an item of a source file. Nothing is claimed of it.
#[verifier::external_type_specification]
#[verifier::external_body]
pub struct ExItem(syn::Item);

/// `syn::ItemMod`, a module. Nothing is claimed of it.
#[verifier::external_type_specification]
#[verifier::external_body]
pub struct ExItemMod(syn::ItemMod);

/// `syn::Expr`, an expression. Nothing is claimed of it.
#[verifier::external_type_specification]
#[verifier::external_body]
pub struct ExExpr(syn::Expr);

/// `syn::Type`, a type. Nothing is claimed of it.
#[verifier::external_type_specification]
#[verifier::external_body]
pub struct ExType(syn::Type);

/// `syn::Attribute`, an attribute. Nothing is claimed of it.
#[verifier::external_type_specification]
#[verifier::external_body]
pub struct ExAttribute(syn::Attribute);

/// `syn::parse_str`: the items of a source file, the same for the same text, or
/// nothing where the text is no Rust source file. The functions below turn what
/// it returns into nodes, field by field.
#[verifier::external_body]
pub(crate) fn parse_source(content: &str) -> (r: Option<Vec<ItemNode>>)
    ensures
        parsed_items(r) == source_items(content@),
{
    let file: syn::File = syn::parse_str(content).ok()?;
    Some(file.items.iter().map(item_node).collect())
}

/// The node for a `syn::Item`. Nothing is claimed of it but by `parse_source`.
#[verifier::external_body]
fn item_node(item: &syn::Item) -> ItemNode {
    match item {
        syn::Item::Const(item) => ItemNode::Const(ConstNode {
            public: matches!(item.vis, syn::Visibility::Public(_)),
            name: item.ident.to_string(),
            attrs: item.attrs.iter().map(attr_node).collect(),
            referent: referent(&item.ty),
            value: expr_node(&item.expr),
        }),
        syn::Item::Macro(item) => ItemNode::Macro {
            name: item.ident.as_ref().map(|ident| ident.to_string()),
            tokens: item.mac.tokens.to_string(),
        },
        syn::Item::Mod(item) => ItemNode::Mod(mod_node(item)),
        _ => ItemNode::Other,
    }
}

/// The node for a `syn::ItemMod`. Nothing is claimed of it but by `parse_source`.
#[verifier::external_body]
fn mod_node(item: &syn::ItemMod) -> ModNode {
    ModNode {
        public: matches!(item.vis, syn::Visibility::Public(_)),
        name: item.ident.to_string(),
        attrs: item.attrs.iter().map(attr_node).collect(),
        items: item.content.as_ref().map(|(_, items)| items.iter().map(item_node).collect()),
    }
}

/// The node for a `syn::Expr`. Nothing is claimed of it but by `parse_source`.
#[verifier::external_body]
fn expr_node(expr: &syn::Expr) -> ExprNode {
    match expr {
        syn::Expr::Lit(syn::ExprLit { lit: syn::Lit::Str(text), .. }) => {
            ExprNode::Str(text.value())
        },
        syn::Expr::Lit(_) => ExprNode::OtherLiteral,
        syn::Expr::Macro(expr) => ExprNode::Macro(expr.mac.tokens.to_string()),
        syn::Expr::MethodCall(expr) => ExprNode::MethodCall(Box::new(expr_node(&expr.receiver))),
        _ => ExprNode::Other,
    }
}

/// The words of the path that a `syn::Type` refers to, if it is a reference to
/// one. Nothing is claimed of it but by `parse_source`.
#[verifier::external_body]
fn referent(ty: &syn::Type) -> Option<Vec<String>> {
    match ty {
        syn::Type::Reference(reference) => match &*reference.elem {
            syn::Type::Path(path) => {
                Some(path.path.segments.iter().map(|word| word.ident.to_string()).collect())
            },
            _ => None,
        },
        _ => None,
    }
}

/// The node for a `syn::Attribute`. Nothing is claimed of it but by
/// `parse_source`.
#[verifier::external_body]
fn attr_node(attr: &syn::Attribute) -> AttrNode {
    AttrNode {
        name: attr.path().get_ident().map(|ident| ident.to_string()),
        value: match &attr.meta {
            syn::Meta::NameValue(meta) => match expr_node(&meta.value) {
                ExprNode::Str(text) => Some(text),
                _ => None,
            },
            _ => None,
        },
    }
}

/// Items are seen with all that they hold.
pub proof fn nodes_are_seen_whole(
    attr: AttrNode,
    constant: ConstNode,
    module: ModNode,
    value: String,
    receiver: ExprNode,
    i: int,
)
    ensures
        attr@.name == seqs::text(attr.name),
        attr@.value == seqs::text(attr.value),
        constant@.public == constant.public,
        constant@.name == constant.name@,
        constant@.attrs == attr_views(constant.attrs@),
        constant@.value == expr_view(constant.value),
        constant@.referent is Some <==> constant.referent is Some,
        constant.referent is Some ==> constant@.referent->0 == seqs::texts(constant.referent->0@),
        attr_views(constant.attrs@).len() == constant.attrs@.len(),
        0 <= i < constant.attrs@.len() ==> attr_views(constant.attrs@)[i] == constant.attrs@[i]@,
        mod_view(module).public == module.public,
        mod_view(module).name == module.name@,
        mod_view(module).attrs == attr_views(module.attrs@),
        mod_view(module).items is Some <==> module.items is Some,
        module.items is Some ==> mod_view(module).items->0.len() == module.items->0@.len(),
        module.items is Some && 0 <= i < module.items->0@.len() ==> mod_view(module).items->0[i]
            == item_view(module.items->0@[i]),
        item_view(ItemNode::Const(constant)) == ItemView::Const(constant@),
        item_view(ItemNode::Mod(module)) == ItemView::Mod(mod_view(module)),
        item_view(ItemNode::Macro { name: attr.name, tokens: value }) == (ItemView::Macro {
            name: seqs::text(attr.name),
            tokens: value@,
        }),
        item_view(ItemNode::Other) == ItemView::Other,
        expr_view(ExprNode::Str(value)) == ExprView::Str(value@),
        expr_view(ExprNode::Macro(value)) == ExprView::Macro(value@),
        expr_view(ExprNode::OtherLiteral) == ExprView::OtherLiteral,
        expr_view(ExprNode::Other) == ExprView::Other,
        expr_view(ExprNode::MethodCall(Box::new(receiver))) == ExprView::MethodCall(
            Box::new(expr_view(receiver)),
        ),
{
}

} // verus!
