//! Finds the modules of metric names in a Rust source file.

use crate::codegen::ast;
use crate::codegen::ast::{
    parse_source, AttrNode, AttrView, ConstNode, ConstView, ExprNode, ExprView, ItemNode, ItemView,
    ModNode, ModView,
};
use crate::codegen::names;
use crate::seqs;
use crate::text;
use vstd::prelude::*;

verus! {

#[derive(Debug)]
pub struct ConstantDef {
    pub name: String,
    pub value: String,
    pub doc_comment: String,
}

#[derive(Debug)]
pub struct ModuleDef {
    pub name: String,
    pub constants: Vec<ConstantDef>,
    pub doc_comment: String,
    pub is_macro_generated: bool,
    pub macro_prefix: Option<String>,
    /// Nested public modules, sorted by name so that generated output is stable.
    pub submodules: Vec<ModuleDef>,
}

/// The modules of a source file, each with a name of its own. Reading a file
/// leaves them sorted by name.
#[derive(Debug)]
pub struct PrometheusParser {
    pub modules: Vec<ModuleDef>,
}

/// Why a source file is refused.
#[derive(Debug)]
pub enum ParseError {
    /// It is no Rust source file.
    InvalidSource,
    /// The value of a constant is a literal, but no string.
    ExpectedStringLiteral,
    /// The value of a constant is a macro call without any string.
    NoStringLiterals,
    /// The value of a constant is anything else.
    UnsupportedExpression,
    /// A module has a constant and a nested module of the same name, which
    /// cannot both be attributes of one class.
    NameClash { module: String, name: String, value: String },
}

#[verifier::ext_equal]
pub struct ConstantView {
    pub name: Seq<char>,
    pub value: Seq<char>,
    pub doc_comment: Seq<char>,
}

#[verifier::ext_equal]
pub struct ModuleView {
    pub name: Seq<char>,
    pub constants: Seq<ConstantView>,
    pub doc_comment: Seq<char>,
    pub is_macro_generated: bool,
    pub macro_prefix: Option<Seq<char>>,
    pub submodules: Seq<ModuleView>,
}

pub enum ParseErrorView {
    InvalidSource,
    ExpectedStringLiteral,
    NoStringLiterals,
    UnsupportedExpression,
    NameClash { module: Seq<char>, name: Seq<char>, value: Seq<char> },
}

impl View for ConstantDef {
    type V = ConstantView;

    open spec fn view(&self) -> ConstantView {
        ConstantView {
            name: self.name@,
            value: self.value@,
            doc_comment: self.doc_comment@,
        }
    }
}

impl View for ParseError {
    type V = ParseErrorView;

    open spec fn view(&self) -> ParseErrorView {
        match self {
            ParseError::InvalidSource => ParseErrorView::InvalidSource,
            ParseError::ExpectedStringLiteral => ParseErrorView::ExpectedStringLiteral,
            ParseError::NoStringLiterals => ParseErrorView::NoStringLiterals,
            ParseError::UnsupportedExpression => ParseErrorView::UnsupportedExpression,
            ParseError::NameClash { module, name, value } => ParseErrorView::NameClash {
                module: module@,
                name: name@,
                value: value@,
            },
        }
    }
}

pub open spec fn constant_views(constants: Seq<ConstantDef>) -> Seq<ConstantView> {
    constants.map_values(|constant: ConstantDef| constant@)
}

pub open spec fn module_view(module: ModuleDef) -> ModuleView
    decreases module,
{
    ModuleView {
        name: module.name@,
        constants: constant_views(module.constants@),
        doc_comment: module.doc_comment@,
        is_macro_generated: module.is_macro_generated,
        macro_prefix: seqs::text(module.macro_prefix),
        submodules: Seq::new(
            module.submodules@.len(),
            |i: int|
                if 0 <= i < module.submodules@.len() {
                    module_view(module.submodules@[i])
                } else {
                    arbitrary()
                },
        ),
    }
}

impl Clone for ConstantDef {
    fn clone(&self) -> (r: Self)
        ensures
            r@ == self@,
    {
        ConstantDef {
            name: self.name.clone(),
            value: self.value.clone(),
            doc_comment: self.doc_comment.clone(),
        }
    }
}

impl Clone for ModuleDef {
    fn clone(&self) -> (r: Self)
        ensures
            module_view(r) == module_view(*self),
    {
        copy_module(self)
    }
}

fn copy_module(module: &ModuleDef) -> (r: ModuleDef)
    ensures
        module_view(r) == module_view(*module),
    decreases module,
{
    let mut constants: Vec<ConstantDef> = Vec::new();
    let mut i: usize = 0;
    while i < module.constants.len()
        invariant
            i <= module.constants@.len(),
            constants@.len() == i,
            forall|j: int| 0 <= j < i ==> (#[trigger] constants@[j])@ == module.constants@[j]@,
        decreases module.constants@.len() - i,
    {
        constants.push(module.constants[i].clone());
        i += 1;
    }
    let mut submodules: Vec<ModuleDef> = Vec::new();
    let mut k: usize = 0;
    while k < module.submodules.len()
        invariant
            k <= module.submodules@.len(),
            submodules@.len() == k,
            forall|j: int|
                0 <= j < k ==> module_view(#[trigger] submodules@[j]) == module_view(
                    module.submodules@[j],
                ),
        decreases module.submodules@.len() - k,
    {
        submodules.push(copy_module(&module.submodules[k]));
        k += 1;
    }
    let r = ModuleDef {
        name: module.name.clone(),
        constants,
        doc_comment: module.doc_comment.clone(),
        is_macro_generated: module.is_macro_generated,
        macro_prefix: text::copy_optional(&module.macro_prefix),
        submodules,
    };
    proof {
        assert(module_view(r).constants =~= module_view(*module).constants);
        assert(module_view(r).submodules =~= module_view(*module).submodules);
    }
    r
}

pub open spec fn module_views(modules: Seq<ModuleDef>) -> Seq<ModuleView> {
    modules.map_values(|module: ModuleDef| module_view(module))
}

/// The lines of documentation that attributes hold.
pub open spec fn doc_lines(attrs: Seq<AttrView>) -> Seq<Seq<char>>
    decreases attrs.len(),
{
    if attrs.len() == 0 {
        Seq::empty()
    } else {
        let before = doc_lines(attrs.drop_last());
        let attr = attrs.last();
        if attr.name == Some("doc"@) && attr.value is Some && text::trimmed(attr.value->0).len() > 0 {
            before.push(text::trimmed(attr.value->0))
        } else {
            before
        }
    }
}

/// The documentation that attributes hold.
pub open spec fn doc_comment(attrs: Seq<AttrView>) -> Seq<char> {
    names::joined(doc_lines(attrs))
}

/// The text that an expression stands for.
pub open spec fn string_value(expr: ExprView) -> Result<Seq<char>, ParseErrorView>
    decreases expr,
{
    match expr {
        ExprView::Str(value) => Ok(value),
        ExprView::OtherLiteral => Err(ParseErrorView::ExpectedStringLiteral),
        ExprView::Macro(tokens) => if tokens.contains('"') {
            Ok(names::quoted(tokens, false))
        } else {
            Err(ParseErrorView::NoStringLiterals)
        },
        ExprView::MethodCall(receiver) => string_value(*receiver),
        ExprView::Other => Err(ParseErrorView::UnsupportedExpression),
    }
}

/// Whether the type of a constant is a reference to `str`, by whatever path.
pub open spec fn is_text(referent: Option<Seq<Seq<char>>>) -> bool {
    referent matches Some(words) && words.len() > 0 && words.last() == "str"@
}

/// The constant that an item defines, if it is a public one of text.
pub open spec fn constant_of(item: ConstView) -> Result<Option<ConstantView>, ParseErrorView> {
    if !item.public || !is_text(item.referent) {
        Ok(None)
    } else {
        match string_value(item.value) {
            Ok(value) => Ok(
                Some(
                    ConstantView {
                        name: item.name,
                        value,
                        doc_comment: doc_comment(item.attrs),
                    },
                ),
            ),
            Err(error) => Err(error),
        }
    }
}

/// The prefix that a macro puts in front of names, if it is such a macro: its
/// own name ends in `_name`, and it concatenates a string to something.
pub open spec fn prefix_of(name: Option<Seq<char>>, tokens: Seq<char>) -> Option<Seq<char>> {
    if name is None || !names::ends_with(name->0, "_name"@) {
        None
    } else {
        match names::part_from(tokens, "concat !"@, 0) {
            None => None,
            Some(at) => match names::index_from(tokens, '"', at) {
                None => None,
                Some(open) => match names::index_from(tokens, '"', open + 1) {
                    None => None,
                    Some(close) => Some(
                        names::without_trailing(tokens.subrange(open + 1, close), '_'),
                    ),
                },
            },
        }
    }
}

/// `modules` with one more, in its place by name, behind those of the same name.
pub open spec fn placed(modules: Seq<ModuleView>, module: ModuleView) -> Seq<ModuleView>
    decreases modules.len(),
{
    if modules.len() > 0 && text::before(module.name, modules.last().name) {
        placed(modules.drop_last(), module).push(modules.last())
    } else {
        modules.push(module)
    }
}

/// `modules` sorted by name. Those of the same name stay in order.
pub open spec fn sorted(modules: Seq<ModuleView>) -> Seq<ModuleView>
    decreases modules.len(),
{
    if modules.len() == 0 {
        modules
    } else {
        placed(sorted(modules.drop_last()), modules.last())
    }
}

/// The first constant of that name, if there is one.
pub open spec fn named_constant(constants: Seq<ConstantView>, name: Seq<char>) -> Option<
    ConstantView,
>
    decreases constants.len(),
{
    if constants.len() == 0 {
        None
    } else {
        match named_constant(constants.drop_last(), name) {
            Some(found) => Some(found),
            None => if constants.last().name == name {
                Some(constants.last())
            } else {
                None
            },
        }
    }
}

/// The first nested module that has the name of a constant, with that constant.
pub open spec fn first_clash(constants: Seq<ConstantView>, submodules: Seq<ModuleView>) -> Option<
    (ModuleView, ConstantView),
>
    decreases submodules.len(),
{
    if submodules.len() == 0 {
        None
    } else {
        match first_clash(constants, submodules.drop_last()) {
            Some(found) => Some(found),
            None => match named_constant(constants, submodules.last().name) {
                Some(constant) => Some((submodules.last(), constant)),
                None => None,
            },
        }
    }
}

/// The constant with the prefix of its module, unless it has it already or is
/// the prefix itself.
pub open spec fn prefixed(constant: ConstantView, prefix: Option<Seq<char>>) -> ConstantView {
    match prefix {
        Some(prefix) => if constant.name == "PREFIX"@ || names::begins_with(
            constant.value,
            prefix,
        ) {
            constant
        } else {
            ConstantView { value: prefix + seq!['_'] + constant.value, ..constant }
        },
        None => constant,
    }
}

/// What the items of a module add up to.
pub struct PartsView {
    pub constants: Seq<ConstantView>,
    pub submodules: Seq<ModuleView>,
    pub macro_prefix: Option<Seq<char>>,
}

/// What items add up to, in the order in which they stand. The first one that
/// is wrong decides the error.
pub open spec fn parts_of(items: Seq<ItemView>) -> Result<PartsView, ParseErrorView>
    decreases items,
{
    if items.len() == 0 {
        Ok(PartsView { constants: Seq::empty(), submodules: Seq::empty(), macro_prefix: None })
    } else {
        match parts_of(items.drop_last()) {
            Err(error) => Err(error),
            Ok(parts) => match items.last() {
                ItemView::Const(item) => match constant_of(item) {
                    Err(error) => Err(error),
                    Ok(None) => Ok(parts),
                    Ok(Some(constant)) => Ok(
                        PartsView { constants: parts.constants.push(constant), ..parts },
                    ),
                },
                ItemView::Macro { name, tokens } => match prefix_of(name, tokens) {
                    Some(prefix) => Ok(PartsView { macro_prefix: Some(prefix), ..parts }),
                    None => Ok(parts),
                },
                ItemView::Mod(item) => match module_of(item) {
                    Err(error) => Err(error),
                    Ok(None) => Ok(parts),
                    Ok(Some(module)) => Ok(
                        PartsView { submodules: parts.submodules.push(module), ..parts },
                    ),
                },
                ItemView::Other => Ok(parts),
            },
        }
    }
}

/// The module that an item defines, if it is a public one with its contents.
pub open spec fn module_of(item: ModView) -> Result<Option<ModuleView>, ParseErrorView>
    decreases item,
{
    if !item.public {
        Ok(None)
    } else {
        match item.items {
            None => Ok(None),
            Some(items) => match parts_of(items) {
                Err(error) => Err(error),
                Ok(parts) => assembled(item.name, doc_comment(item.attrs), parts),
            },
        }
    }
}

/// The module made of what its items add up to.
pub open spec fn assembled(name: Seq<char>, doc_comment: Seq<char>, parts: PartsView) -> Result<
    Option<ModuleView>,
    ParseErrorView,
> {
    let submodules = sorted(parts.submodules);
    match first_clash(parts.constants, submodules) {
        Some((child, constant)) => Err(
            ParseErrorView::NameClash { module: name, name: child.name, value: constant.value },
        ),
        None => Ok(
            Some(
                ModuleView {
                    name,
                    constants: parts.constants.map_values(
                        |constant: ConstantView| prefixed(constant, parts.macro_prefix),
                    ),
                    doc_comment,
                    is_macro_generated: parts.macro_prefix is Some,
                    macro_prefix: parts.macro_prefix,
                    submodules,
                },
            ),
        ),
    }
}

/// `modules` without those of that name.
pub open spec fn without_name(modules: Seq<ModuleView>, name: Seq<char>) -> Seq<ModuleView> {
    modules.filter(|module: ModuleView| module.name != name)
}

/// The modules of a source file, sorted by name. Of two with the same name the
/// later one counts.
pub open spec fn modules_of(items: Seq<ItemView>) -> Result<Seq<ModuleView>, ParseErrorView>
    decreases items.len(),
{
    if items.len() == 0 {
        Ok(Seq::empty())
    } else {
        match modules_of(items.drop_last()) {
            Err(error) => Err(error),
            Ok(modules) => match items.last() {
                ItemView::Mod(item) => match module_of(item) {
                    Err(error) => Err(error),
                    Ok(None) => Ok(modules),
                    Ok(Some(module)) => Ok(placed(without_name(modules, module.name), module)),
                },
                _ => Ok(modules),
            },
        }
    }
}

/// Whether a parse result stands for another.
pub open spec fn parse_result(
    r: Result<Option<ModuleDef>, ParseError>,
    expected: Result<Option<ModuleView>, ParseErrorView>,
) -> bool {
    match (r, expected) {
        (Ok(Some(module)), Ok(Some(view))) => module_view(module) == view,
        (Ok(None), Ok(None)) => true,
        (Err(error), Err(view)) => error@ == view,
        _ => false,
    }
}

impl PrometheusParser {
    /// No two modules have the same name.
    pub open spec fn wf(&self) -> bool {
        distinct_names(module_views(self.modules@))
    }

    /// Reads the modules of a source file.
    pub fn parse_file(content: &str) -> (r: Result<Self, ParseError>)
        ensures
            match ast::source_items(content@) {
                None => r is Err && r->Err_0 is InvalidSource,
                Some(items) => match modules_of(items) {
                    Ok(modules) => r is Ok && module_views(r->Ok_0.modules@) == modules
                        && r->Ok_0.wf(),
                    Err(error) => r is Err && r->Err_0@ == error,
                },
            },
    {
        match parse_source(content) {
            None => Err(ParseError::InvalidSource),
            Some(items) => Self::from_items(&items),
        }
    }

    /// Reads the modules among the items of a source file.
    pub fn from_items(items: &Vec<ItemNode>) -> (r: Result<Self, ParseError>)
        ensures
            match modules_of(ast::item_views(items@)) {
                Ok(modules) => r is Ok && module_views(r->Ok_0.modules@) == modules
                    && r->Ok_0.wf(),
                Err(error) => r is Err && r->Err_0@ == error,
            },
    {
        let ghost all = ast::item_views(items@);
        let mut modules: Vec<ModuleDef> = Vec::new();
        let mut i: usize = 0;
        proof {
            assert(all.take(0) =~= Seq::empty());
            assert(module_views(modules@) =~= Seq::empty());
        }
        while i < items.len()
            invariant
                i <= items@.len(),
                all == ast::item_views(items@),
                modules_of(all.take(i as int)) == Ok::<Seq<ModuleView>, ParseErrorView>(
                    module_views(modules@),
                ),
            decreases items@.len() - i,
        {
            proof {
                assert(all.take(i + 1).drop_last() =~= all.take(i as int));
                assert(all.take(i + 1).last() == ast::item_view(items@[i as int]));
            }
            match &items[i] {
                ItemNode::Mod(module) => match Self::parse_module(module) {
                    Err(error) => {
                        proof {
                            lemma_error_stays(all, i + 1);
                        }
                        return Err(error);
                    },
                    Ok(None) => {},
                    Ok(Some(parsed)) => {
                        let kept = remove_named(modules, &parsed.name);
                        modules = place(kept, parsed);
                    },
                },
                _ => {},
            }
            i += 1;
        }
        proof {
            assert(all.take(all.len() as int) =~= all);
            file_modules_are_ordered(all);
        }
        Ok(PrometheusParser { modules })
    }

    /// The module of that name.
    pub fn module(&self, name: &str) -> (r: Option<&ModuleDef>)
        ensures
            match r {
                Some(module) => self.modules@.contains(*module) && module.name@ == name@,
                None => forall|i: int|
                    0 <= i < self.modules@.len() ==> (#[trigger] self.modules@[i]).name@ != name@,
            },
    {
        let mut i: usize = 0;
        while i < self.modules.len()
            invariant
                i <= self.modules@.len(),
                forall|j: int| 0 <= j < i ==> (#[trigger] self.modules@[j]).name@ != name@,
            decreases self.modules@.len() - i,
        {
            if text::same_text(self.modules[i].name.as_str(), name) {
                assert(self.modules@.contains(self.modules@[i as int]));
                return Some(&self.modules[i]);
            }
            i += 1;
        }
        None
    }

    /// Reads one module with everything in it.
    pub fn parse_module(module: &ModNode) -> (r: Result<Option<ModuleDef>, ParseError>)
        ensures
            parse_result(r, module_of(ast::mod_view(*module))),
        decreases module,
    {
        if !module.public {
            return Ok(None);
        }
        let items = match &module.items {
            Some(items) => items,
            None => {
                return Ok(None);
            },
        };
        let ghost all = ast::mod_view(*module).items->0;
        let mut constants: Vec<ConstantDef> = Vec::new();
        let mut submodules: Vec<ModuleDef> = Vec::new();
        let mut macro_prefix: Option<String> = None;
        let mut i: usize = 0;
        proof {
            assert(all.take(0) =~= Seq::empty());
            assert(constant_views(constants@) =~= Seq::empty());
            assert(module_views(submodules@) =~= Seq::empty());
        }
        while i < items.len()
            invariant
                i <= items@.len(),
                module.items is Some,
                *items == module.items->0,
                all == ast::mod_view(*module).items->0,
                module.public,
                all.len() == items@.len(),
                parts_of(all.take(i as int)) == Ok::<PartsView, ParseErrorView>(
                    PartsView {
                        constants: constant_views(constants@),
                        submodules: module_views(submodules@),
                        macro_prefix: seqs::text(macro_prefix),
                    },
                ),
            decreases items@.len() - i,
        {
            proof {
                assert(all.take(i + 1).drop_last() =~= all.take(i as int));
                assert(all.take(i + 1).last() == ast::item_view(items@[i as int]));
            }
            let ghost old_constants = constants@;
            let ghost old_submodules = submodules@;
            match &items[i] {
                ItemNode::Const(item) => match Self::parse_const(item) {
                    Err(error) => {
                        proof {
                            lemma_parts_error_stays(all, i + 1);
                        }
                        return Err(error);
                    },
                    Ok(None) => {},
                    Ok(Some(constant)) => {
                        constants.push(constant);
                        assert(constant_views(constants@) =~= constant_views(old_constants).push(
                            constant@,
                        ));
                    },
                },
                ItemNode::Macro { name, tokens } => {
                    match Self::extract_macro_prefix(name, tokens.as_str()) {
                        Some(prefix) => {
                            macro_prefix = Some(prefix);
                        },
                        None => {},
                    }
                },
                ItemNode::Mod(item) => {
                    match Self::parse_module(item) {
                        Err(error) => {
                            proof {
                                lemma_parts_error_stays(all, i + 1);
                            }
                            return Err(error);
                        },
                        Ok(None) => {},
                        Ok(Some(child)) => {
                            submodules.push(child);
                            assert(module_views(submodules@) =~= module_views(
                                old_submodules,
                            ).push(module_view(child)));
                        },
                    }
                },
                ItemNode::Other => {},
            }
            i += 1;
        }
        assert(all.take(all.len() as int) =~= all);
        let submodules = sort_modules(submodules);
        match find_clash(&constants, &submodules) {
            Some((child, constant)) => {
                return Err(
                    ParseError::NameClash {
                        module: module.name.clone(),
                        name: submodules[child].name.clone(),
                        value: constants[constant].value.clone(),
                    },
                );
            },
            None => {},
        }
        let constants = apply_prefix(constants, &macro_prefix);
        let parsed = ModuleDef {
            name: module.name.clone(),
            constants,
            doc_comment: Self::extract_doc_comment(&module.attrs),
            is_macro_generated: macro_prefix.is_some(),
            macro_prefix,
            submodules,
        };
        assert(module_view(parsed).submodules =~= module_views(submodules@));
        Ok(Some(parsed))
    }

    pub fn parse_const(item: &ConstNode) -> (r: Result<Option<ConstantDef>, ParseError>)
        ensures
            match (r, constant_of(item@)) {
                (Ok(Some(constant)), Ok(Some(view))) => constant@ == view,
                (Ok(None), Ok(None)) => true,
                (Err(error), Err(view)) => error@ == view,
                _ => false,
            },
    {
        if !item.public {
            return Ok(None);
        }
        let is_str = match &item.referent {
            Some(words) => words.len() > 0 && text::same_text(
                words[words.len() - 1].as_str(),
                "str",
            ),
            None => false,
        };
        if !is_str {
            return Ok(None);
        }
        let doc_comment = Self::extract_doc_comment(&item.attrs);
        match Self::extract_string_value(&item.value) {
            Ok(value) => Ok(Some(ConstantDef { name: item.name.clone(), value, doc_comment })),
            Err(error) => Err(error),
        }
    }

    pub fn extract_string_value(expr: &ExprNode) -> (r: Result<String, ParseError>)
        ensures
            match (r, string_value(ast::expr_view(*expr))) {
                (Ok(value), Ok(view)) => value@ == view,
                (Err(error), Err(view)) => error@ == view,
                _ => false,
            },
        decreases expr,
    {
        match expr {
            ExprNode::Str(value) => Ok(value.clone()),
            ExprNode::OtherLiteral => Err(ParseError::ExpectedStringLiteral),
            ExprNode::Macro(tokens) => match names::read_quoted(tokens.as_str()) {
                Some(value) => Ok(value),
                None => Err(ParseError::NoStringLiterals),
            },
            ExprNode::MethodCall(receiver) => Self::extract_string_value(receiver),
            ExprNode::Other => Err(ParseError::UnsupportedExpression),
        }
    }

    pub fn extract_macro_prefix(name: &Option<String>, tokens: &str) -> (r: Option<String>)
        ensures
            seqs::text(r) == prefix_of(seqs::text(*name), tokens@),
    {
        let name = match name {
            Some(name) => name,
            None => {
                return None;
            },
        };
        if !names::has_suffix(name.as_str(), "_name") {
            return None;
        }
        let chars = text::chars_of(tokens);
        let pattern = text::chars_of("concat !");
        assert(chars.len() <= usize::MAX);
        match names::find_part(&chars, &pattern) {
            None => None,
            Some(at) => match names::find_char(&chars, '"', at) {
                None => None,
                Some(open) => match names::find_char(&chars, '"', open + 1) {
                    None => None,
                    Some(close) => Some(
                        names::part_without_trailing(&chars, open + 1, close, '_'),
                    ),
                },
            },
        }
    }

    pub fn extract_doc_comment(attrs: &Vec<AttrNode>) -> (r: String)
        ensures
            r@ == doc_comment(ast::attr_views(attrs@)),
    {
        let mut lines: Vec<String> = Vec::new();
        let ghost all = ast::attr_views(attrs@);
        let mut i: usize = 0;
        proof {
            assert(all.take(0) =~= Seq::empty());
            assert(seqs::texts(lines@) =~= Seq::empty());
        }
        while i < attrs.len()
            invariant
                i <= attrs@.len(),
                all == ast::attr_views(attrs@),
                seqs::texts(lines@) == doc_lines(all.take(i as int)),
            decreases attrs@.len() - i,
        {
            proof {
                assert(all.take(i + 1).drop_last() =~= all.take(i as int));
                assert(all.take(i + 1).last() == attrs@[i as int]@);
            }
            let ghost before = lines@;
            let is_doc = match &attrs[i].name {
                Some(name) => text::same_text(name.as_str(), "doc"),
                None => false,
            };
            if is_doc {
                match &attrs[i].value {
                    Some(value) => {
                        let line = text::trim(value.as_str());
                        if !text::is_blank(line.as_str()) {
                            lines.push(line);
                            assert(seqs::texts(lines@) =~= seqs::texts(before).push(line@));
                        }
                    },
                    None => {},
                }
            }
            i += 1;
        }
        assert(all.take(all.len() as int) =~= all);
        names::join_lines(&lines)
    }
}

proof fn lemma_parts_error_stays(items: Seq<ItemView>, k: int)
    requires
        0 <= k <= items.len(),
        parts_of(items.take(k)) is Err,
    ensures
        parts_of(items) == parts_of(items.take(k)),
    decreases items.len() - k,
{
    if k == items.len() {
        assert(items.take(k) =~= items);
    } else {
        assert(items.take(k + 1).drop_last() =~= items.take(k));
        lemma_parts_error_stays(items, k + 1);
    }
}

proof fn lemma_error_stays(items: Seq<ItemView>, k: int)
    requires
        0 <= k <= items.len(),
        modules_of(items.take(k)) is Err,
    ensures
        modules_of(items) == modules_of(items.take(k)),
    decreases items.len() - k,
{
    if k == items.len() {
        assert(items.take(k) =~= items);
    } else {
        assert(items.take(k + 1).drop_last() =~= items.take(k));
        lemma_error_stays(items, k + 1);
    }
}

fn place(modules: Vec<ModuleDef>, module: ModuleDef) -> (r: Vec<ModuleDef>)
    ensures
        module_views(r@) == placed(module_views(modules@), module_view(module)),
{
    let mut modules = modules;
    let ghost all = module_views(modules@);
    let ghost new = module_view(module);
    let mut i: usize = modules.len();
    proof {
        assert(all.take(all.len() as int) =~= all);
        assert(placed(all, new) =~= placed(all.take(all.len() as int), new) + all.skip(
            all.len() as int,
        ));
    }
    while i > 0 && text::comes_before(module.name.as_str(), modules[i - 1].name.as_str())
        invariant
            i <= modules@.len(),
            all == module_views(modules@),
            new == module_view(module),
            placed(all, new) == placed(all.take(i as int), new) + all.skip(i as int),
        decreases i,
    {
        proof {
            let front = all.take(i as int);
            assert(front.last() == module_view(modules@[i - 1]));
            assert(front.drop_last() =~= all.take(i - 1));
            assert(placed(front, new) == placed(all.take(i - 1), new).push(front.last()));
            assert(placed(all.take(i - 1), new).push(front.last()) + all.skip(i as int)
                =~= placed(all.take(i - 1), new) + all.skip(i - 1));
        }
        i -= 1;
    }
    proof {
        let front = all.take(i as int);
        if i > 0 {
            assert(front.last() == module_view(modules@[i - 1]));
        }
        assert(placed(front, new) == front.push(new));
    }
    modules.insert(i, module);
    assert(module_views(modules@) =~= all.take(i as int).push(new) + all.skip(i as int));
    modules
}

fn sort_modules(modules: Vec<ModuleDef>) -> (r: Vec<ModuleDef>)
    ensures
        module_views(r@) == sorted(module_views(modules@)),
{
    let ghost all = module_views(modules@);
    let mut rest = modules;
    let mut queue: Vec<ModuleDef> = Vec::new();
    let mut out: Vec<ModuleDef> = Vec::new();
    let n: usize = rest.len();
    proof {
        assert(all.skip(0) =~= all);
        assert(module_views(queue@) =~= Seq::empty());
    }
    while rest.len() > 0
        invariant
            n == all.len(),
            rest@.len() + queue@.len() == n,
            module_views(rest@) == all.take(rest@.len() as int),
            module_views(queue@) == all.skip(rest@.len() as int).reverse(),
        decreases rest@.len(),
    {
        let ghost before = rest@;
        let ghost earlier = queue@;
        match rest.pop() {
            Some(module) => {
                queue.push(module);
                proof {
                    let k = rest@.len() as int;
                    assert(module_views(before)[k] == module_view(module));
                    assert(all.take(k + 1)[k] == all[k]);
                    assert(module_views(rest@) =~= all.take(k));
                    assert(module_views(queue@) =~= module_views(earlier).push(
                        module_view(module),
                    ));
                    assert(all.skip(k).reverse() =~= all.skip(k + 1).reverse().push(all[k]));
                }
            },
            None => {},
        }
    }
    proof {
        assert(all.skip(0) =~= all);
        assert(module_views(queue@) == all.reverse());
        assert(module_views(out@) =~= Seq::empty());
        assert(all.take(0) =~= Seq::empty());
    }
    while queue.len() > 0
        invariant
            n == all.len(),
            queue@.len() <= n,
            module_views(queue@) == all.skip(n - queue@.len()).reverse(),
            module_views(out@) == sorted(all.take(n - queue@.len())),
        decreases queue@.len(),
    {
        let ghost before = queue@;
        match queue.pop() {
            Some(module) => {
                proof {
                    let k = n - before.len();
                    let last = before.len() - 1;
                    assert(module_views(before)[last] == module_view(module));
                    assert(all.skip(k).reverse()[last] == all[k]);
                    assert(all.take(k + 1).drop_last() =~= all.take(k));
                    assert(all.take(k + 1).last() == all[k]);
                    assert(module_views(queue@) =~= module_views(before).drop_last());
                    assert(all.skip(k + 1).reverse() =~= all.skip(k).reverse().drop_last());
                }
                out = place(out, module);
            },
            None => {},
        }
    }
    assert(all.take(n as int) =~= all);
    out
}

pub open spec fn ref_views(modules: Seq<&ModuleDef>) -> Seq<ModuleView> {
    modules.map_values(|module: &ModuleDef| module_view(*module))
}

fn place_ref<'a>(modules: Vec<&'a ModuleDef>, module: &'a ModuleDef) -> (r: Vec<&'a ModuleDef>)
    ensures
        ref_views(r@) == placed(ref_views(modules@), module_view(*module)),
{
    let mut modules = modules;
    let ghost all = ref_views(modules@);
    let ghost new = module_view(*module);
    let mut i: usize = modules.len();
    proof {
        assert(all.take(all.len() as int) =~= all);
        assert(placed(all, new) =~= placed(all.take(all.len() as int), new) + all.skip(
            all.len() as int,
        ));
    }
    while i > 0 && text::comes_before(module.name.as_str(), modules[i - 1].name.as_str())
        invariant
            i <= modules@.len(),
            all == ref_views(modules@),
            new == module_view(*module),
            placed(all, new) == placed(all.take(i as int), new) + all.skip(i as int),
        decreases i,
    {
        proof {
            let front = all.take(i as int);
            assert(front.last() == module_view(*modules@[i - 1]));
            assert(front.drop_last() =~= all.take(i - 1));
            assert(placed(front, new) == placed(all.take(i - 1), new).push(front.last()));
            assert(placed(all.take(i - 1), new).push(front.last()) + all.skip(i as int)
                =~= placed(all.take(i - 1), new) + all.skip(i - 1));
        }
        i -= 1;
    }
    proof {
        let front = all.take(i as int);
        if i > 0 {
            assert(front.last() == module_view(*modules@[i - 1]));
        }
        assert(placed(front, new) == front.push(new));
    }
    modules.insert(i, module);
    assert(ref_views(modules@) =~= all.take(i as int).push(new) + all.skip(i as int));
    modules
}

/// The modules sorted by name.
pub(crate) fn by_name(modules: &Vec<ModuleDef>) -> (r: Vec<&ModuleDef>)
    ensures
        ref_views(r@) == sorted(module_views(modules@)),
{
    let ghost all = module_views(modules@);
    let mut out: Vec<&ModuleDef> = Vec::new();
    let mut i: usize = 0;
    proof {
        assert(all.take(0) =~= Seq::empty());
        assert(ref_views(out@) =~= Seq::empty());
    }
    while i < modules.len()
        invariant
            i <= modules@.len(),
            all == module_views(modules@),
            ref_views(out@) == sorted(all.take(i as int)),
        decreases modules@.len() - i,
    {
        proof {
            assert(all.take(i + 1).drop_last() =~= all.take(i as int));
            assert(all.take(i + 1).last() == module_view(modules@[i as int]));
        }
        out = place_ref(out, &modules[i]);
        i += 1;
    }
    assert(all.take(all.len() as int) =~= all);
    out
}

fn remove_named(modules: Vec<ModuleDef>, name: &String) -> (r: Vec<ModuleDef>)
    ensures
        module_views(r@) == without_name(module_views(modules@), name@),
{
    let ghost all = module_views(modules@);
    let ghost keep = |module: ModuleView| module.name != name@;
    let mut modules = modules;
    let total: usize = modules.len();
    let mut i: usize = 0;
    proof {
        assert(all.take(0).filter(keep) =~= Seq::empty()) by {
            reveal(Seq::filter);
        }
        assert(all.skip(0) =~= all);
        assert(module_views(modules@) =~= all.take(0).filter(keep) + all.skip(0));
    }
    let mut seen: usize = 0;
    while i < modules.len()
        invariant
            i <= modules@.len(),
            seen <= total,
            total == all.len(),
            keep == (|module: ModuleView| module.name != name@),
            i == all.take(seen as int).filter(keep).len(),
            modules@.len() - i == all.len() - seen,
            module_views(modules@) == all.take(seen as int).filter(keep) + all.skip(seen as int),
        decreases modules@.len() - i,
    {
        proof {
            reveal(Seq::filter);
            assert(all.take(seen + 1).drop_last() =~= all.take(seen as int));
            assert(all.take(seen + 1).last() == all[seen as int]);
            assert(module_views(modules@)[i as int] == all[seen as int]);
        }
        let ghost before = modules@;
        if text::same_text(modules[i].name.as_str(), name.as_str()) {
            modules.remove(i);
            proof {
                assert(module_views(modules@) =~= module_views(before).remove(i as int));
                assert(module_views(before).remove(i as int) =~= all.take(seen as int).filter(keep)
                    + all.skip(seen + 1));
            }
        } else {
            proof {
                assert(all.take(seen as int).filter(keep) + all.skip(seen as int) =~= all.take(
                    seen as int,
                ).filter(keep).push(all[seen as int]) + all.skip(seen + 1));
            }
            i += 1;
        }
        seen += 1;
    }
    proof {
        assert(all.take(all.len() as int) =~= all);
        assert(all.take(seen as int).filter(keep) + all.skip(seen as int) =~= all.filter(keep));
    }
    modules
}

fn find_constant(constants: &Vec<ConstantDef>, name: &String) -> (r: Option<usize>)
    ensures
        match r {
            Some(i) => i < constants@.len() && named_constant(constant_views(constants@), name@)
                == Some(constants@[i as int]@),
            None => named_constant(constant_views(constants@), name@) is None,
        },
{
    let ghost all = constant_views(constants@);
    let mut i: usize = 0;
    assert(all.take(0) =~= Seq::empty());
    while i < constants.len()
        invariant
            i <= constants@.len(),
            all == constant_views(constants@),
            named_constant(all.take(i as int), name@) is None,
        decreases constants@.len() - i,
    {
        proof {
            assert(all.take(i + 1).drop_last() =~= all.take(i as int));
            assert(all.take(i + 1).last() == constants@[i as int]@);
        }
        if text::same_text(constants[i].name.as_str(), name.as_str()) {
            proof {
                lemma_named_constant_stays(all, name@, i + 1);
            }
            return Some(i);
        }
        i += 1;
    }
    assert(all.take(all.len() as int) =~= all);
    None
}

proof fn lemma_named_constant_stays(constants: Seq<ConstantView>, name: Seq<char>, k: int)
    requires
        0 <= k <= constants.len(),
        named_constant(constants.take(k), name) is Some,
    ensures
        named_constant(constants, name) == named_constant(constants.take(k), name),
    decreases constants.len() - k,
{
    if k == constants.len() {
        assert(constants.take(k) =~= constants);
    } else {
        assert(constants.take(k + 1).drop_last() =~= constants.take(k));
        lemma_named_constant_stays(constants, name, k + 1);
    }
}

fn find_clash(constants: &Vec<ConstantDef>, submodules: &Vec<ModuleDef>) -> (r: Option<
    (usize, usize),
>)
    ensures
        match r {
            Some((child, constant)) => child < submodules@.len() && constant < constants@.len()
                && first_clash(constant_views(constants@), module_views(submodules@)) == Some(
                (module_view(submodules@[child as int]), constants@[constant as int]@),
            ),
            None => first_clash(constant_views(constants@), module_views(submodules@)) is None,
        },
{
    let ghost all = module_views(submodules@);
    let ghost consts = constant_views(constants@);
    let mut i: usize = 0;
    assert(all.take(0) =~= Seq::empty());
    while i < submodules.len()
        invariant
            i <= submodules@.len(),
            all == module_views(submodules@),
            consts == constant_views(constants@),
            first_clash(consts, all.take(i as int)) is None,
        decreases submodules@.len() - i,
    {
        proof {
            assert(all.take(i + 1).drop_last() =~= all.take(i as int));
            assert(all.take(i + 1).last() == module_view(submodules@[i as int]));
        }
        match find_constant(constants, &submodules[i].name) {
            Some(constant) => {
                proof {
                    lemma_clash_stays(consts, all, i + 1);
                }
                return Some((i, constant));
            },
            None => {},
        }
        i += 1;
    }
    assert(all.take(all.len() as int) =~= all);
    None
}

proof fn lemma_clash_stays(constants: Seq<ConstantView>, submodules: Seq<ModuleView>, k: int)
    requires
        0 <= k <= submodules.len(),
        first_clash(constants, submodules.take(k)) is Some,
    ensures
        first_clash(constants, submodules) == first_clash(constants, submodules.take(k)),
    decreases submodules.len() - k,
{
    if k == submodules.len() {
        assert(submodules.take(k) =~= submodules);
    } else {
        assert(submodules.take(k + 1).drop_last() =~= submodules.take(k));
        lemma_clash_stays(constants, submodules, k + 1);
    }
}

fn apply_prefix(constants: Vec<ConstantDef>, macro_prefix: &Option<String>) -> (r: Vec<ConstantDef>)
    ensures
        constant_views(r@) == constant_views(constants@).map_values(
            |constant: ConstantView| prefixed(constant, seqs::text(*macro_prefix)),
        ),
{
    let prefix = match macro_prefix {
        Some(prefix) => prefix,
        None => {
            assert(constant_views(constants@) =~= constant_views(constants@).map_values(
                |constant: ConstantView| prefixed(constant, seqs::text(*macro_prefix)),
            ));
            return constants;
        },
    };
    let mut out: Vec<ConstantDef> = Vec::new();
    let mut i: usize = 0;
    while i < constants.len()
        invariant
            i <= constants@.len(),
            out@.len() == i,
            forall|j: int|
                0 <= j < i ==> (#[trigger] out@[j])@ == prefixed(constants@[j]@, Some(prefix@)),
        decreases constants@.len() - i,
    {
        let constant = &constants[i];
        let value = if text::same_text(constant.name.as_str(), "PREFIX") || names::has_prefix(
            constant.value.as_str(),
            prefix.as_str(),
        ) {
            constant.value.clone()
        } else {
            let mut value = prefix.clone();
            value.push('_');
            value.append(constant.value.as_str());
            value
        };
        out.push(
            ConstantDef {
                name: constant.name.clone(),
                value,
                doc_comment: constant.doc_comment.clone(),
            },
        );
        assert(out@[i as int]@ =~= prefixed(constants@[i as int]@, Some(prefix@)));
        i += 1;
    }
    assert(constant_views(out@) =~= constant_views(constants@).map_values(
        |constant: ConstantView| prefixed(constant, seqs::text(*macro_prefix)),
    ));
    out
}

impl ParseError {
    /// What went wrong, in words.
    pub fn message(&self) -> (r: String)
        ensures
            r@ == error_message(self@),
    {
        match self {
            ParseError::InvalidSource => "Failed to parse Rust file".to_owned(),
            ParseError::ExpectedStringLiteral => "Expected string literal".to_owned(),
            ParseError::NoStringLiterals => "No string literals found in macro".to_owned(),
            ParseError::UnsupportedExpression => {
                "Unsupported expression type for constant value".to_owned()
            },
            ParseError::NameClash { module, name, value } => {
                let mut out = "module `".to_owned();
                out.append(module.as_str());
                out.append("` declares both a constant and a nested module named `");
                out.append(name.as_str());
                out.append(
                    "`; Python cannot express both as attributes of one class. Rename one of them (the constant currently resolves to \"",
                );
                out.append(value.as_str());
                out.append("\").");
                out
            },
        }
    }
}

/// What went wrong, in words.
pub open spec fn error_message(error: ParseErrorView) -> Seq<char> {
    match error {
        ParseErrorView::InvalidSource => "Failed to parse Rust file"@,
        ParseErrorView::ExpectedStringLiteral => "Expected string literal"@,
        ParseErrorView::NoStringLiterals => "No string literals found in macro"@,
        ParseErrorView::UnsupportedExpression => "Unsupported expression type for constant value"@,
        ParseErrorView::NameClash { module, name, value } => "module `"@ + module
            + "` declares both a constant and a nested module named `"@ + name
            + "`; Python cannot express both as attributes of one class. Rename one of them (the constant currently resolves to \""@
            + value + "\")."@,
    }
}

/// Whether no module comes before the one in front of it by name.
pub open spec fn in_order(modules: Seq<ModuleView>) -> bool {
    forall|i: int, j: int|
        0 <= i < j < modules.len() ==> !text::before(
            (#[trigger] modules[j]).name,
            (#[trigger] modules[i]).name,
        )
}

/// Whether each module comes before the one behind it by name.
pub open spec fn strictly_in_order(modules: Seq<ModuleView>) -> bool {
    forall|i: int, j: int|
        0 <= i < j < modules.len() ==> text::before(
            (#[trigger] modules[i]).name,
            (#[trigger] modules[j]).name,
        )
}

proof fn lemma_placed(modules: Seq<ModuleView>, module: ModuleView)
    requires
        in_order(modules),
    ensures
        in_order(placed(modules, module)),
        placed(modules, module).to_multiset() == modules.to_multiset().insert(module),
        placed(modules, module).len() == modules.len() + 1,
        forall|x: ModuleView| #[trigger]
            placed(modules, module).contains(x) <==> modules.contains(x) || x == module,
    decreases modules.len(),
{
    broadcast use vstd::seq_lib::group_to_multiset_ensures;

    if modules.len() > 0 && text::before(module.name, modules.last().name) {
        let front = modules.drop_last();
        let last = modules.last();
        lemma_placed(front, module);
        let inner = placed(front, module);
        assert(front.push(last) =~= modules);
        assert(placed(modules, module) == inner.push(last));
        assert forall|i: int| 0 <= i < inner.len() implies !text::before(
            last.name,
            (#[trigger] inner[i]).name,
        ) by {
            assert(inner.contains(inner[i]));
            if inner[i] == module {
                text::text_is_ordered(module.name, last.name, last.name);
            } else {
                let k = choose|k: int| 0 <= k < front.len() && front[k] == inner[i];
                assert(modules[k] == inner[i]);
                assert(modules[modules.len() - 1] == last);
            }
        }
        assert forall|x: ModuleView| #[trigger]
            placed(modules, module).contains(x) <==> modules.contains(x) || x == module by {
            seqs::lemma_push_member(inner, last, x);
            seqs::lemma_push_member(front, last, x);
        }
        assert(inner.push(last).to_multiset() =~= modules.to_multiset().insert(module));
    } else {
        assert forall|i: int| 0 <= i < modules.len() implies !text::before(
            module.name,
            (#[trigger] modules[i]).name,
        ) by {
            let last = modules.last();
            text::text_is_ordered(module.name, modules[i].name, last.name);
            text::text_is_ordered(last.name, modules[i].name, module.name);
            if i < modules.len() - 1 {
                assert(!text::before(modules[modules.len() - 1].name, modules[i].name));
            }
        }
        assert forall|x: ModuleView| #[trigger]
            placed(modules, module).contains(x) <==> modules.contains(x) || x == module by {
            seqs::lemma_push_member(modules, module, x);
        }
    }
}

/// Sorting gives the same modules in the order of their names.
pub proof fn sorting_orders_modules(modules: Seq<ModuleView>)
    ensures
        in_order(sorted(modules)),
        sorted(modules).to_multiset() == modules.to_multiset(),
        sorted(modules).len() == modules.len(),
    decreases modules.len(),
{
    broadcast use vstd::seq_lib::group_to_multiset_ensures;

    if modules.len() > 0 {
        sorting_orders_modules(modules.drop_last());
        lemma_placed(sorted(modules.drop_last()), modules.last());
        assert(modules.drop_last().push(modules.last()) =~= modules);
    }
}

/// Whether no two modules have the same name.
pub open spec fn distinct_names(modules: Seq<ModuleView>) -> bool {
    forall|i: int, j: int|
        0 <= i < j < modules.len() ==> (#[trigger] modules[i]).name != (#[trigger] modules[j]).name
}

proof fn lemma_same_members(a: Seq<ModuleView>, b: Seq<ModuleView>)
    requires
        strictly_in_order(a),
        strictly_in_order(b),
        forall|x: ModuleView| a.contains(x) <==> b.contains(x),
    ensures
        a == b,
    decreases a.len(),
{
    if a.len() == 0 {
        if b.len() > 0 {
            assert(b.contains(b[0]));
            assert(a.contains(b[0]));
        }
        assert(a =~= b);
    } else {
        assert(a.contains(a[0]));
        assert(b.contains(a[0]));
        let x = a.last();
        let y = b.last();
        assert(a.contains(a[a.len() - 1]));
        assert(b.contains(b[b.len() - 1]));
        let i = choose|i: int| 0 <= i < a.len() && a[i] == y;
        let j = choose|j: int| 0 <= j < b.len() && b[j] == x;
        if x != y {
            assert(text::before(a[i].name, a[a.len() - 1].name));
            assert(text::before(b[j].name, b[b.len() - 1].name));
            text::text_is_ordered(x.name, y.name, x.name);
        }
        let a2 = a.drop_last();
        let b2 = b.drop_last();
        assert forall|z: ModuleView| a2.contains(z) <==> b2.contains(z) by {
            if a2.contains(z) {
                let k = choose|k: int| 0 <= k < a2.len() && a2[k] == z;
                assert(a[k] == z);
                assert(a.contains(z));
                let l = choose|l: int| 0 <= l < b.len() && b[l] == z;
                if l == b.len() - 1 {
                    assert(text::before(a[k].name, a[a.len() - 1].name));
                    text::text_is_ordered(z.name, z.name, z.name);
                }
                assert(b2[l] == z);
            }
            if b2.contains(z) {
                let k = choose|k: int| 0 <= k < b2.len() && b2[k] == z;
                assert(b[k] == z);
                assert(b.contains(z));
                let l = choose|l: int| 0 <= l < a.len() && a[l] == z;
                if l == a.len() - 1 {
                    assert(text::before(b[k].name, b[b.len() - 1].name));
                    text::text_is_ordered(z.name, z.name, z.name);
                }
                assert(a2[l] == z);
            }
        }
        lemma_same_members(a2, b2);
        assert(a =~= a2.push(x));
        assert(b =~= b2.push(y));
    }
}

proof fn lemma_sorted_members(modules: Seq<ModuleView>, x: ModuleView)
    ensures
        sorted(modules).contains(x) <==> modules.contains(x),
    decreases modules.len(),
{
    if modules.len() > 0 {
        let front = modules.drop_last();
        lemma_sorted_members(front, x);
        sorting_orders_modules(front);
        lemma_placed(sorted(front), modules.last());
        seqs::lemma_push_member(front, modules.last(), x);
        assert(front.push(modules.last()) =~= modules);
    }
}

proof fn lemma_strictly_in_order(modules: Seq<ModuleView>)
    requires
        strictly_in_order(modules),
    ensures
        in_order(modules),
{
    assert forall|i: int, j: int| 0 <= i < j < modules.len() implies !text::before(
        (#[trigger] modules[j]).name,
        (#[trigger] modules[i]).name,
    ) by {
        text::text_is_ordered(modules[i].name, modules[j].name, modules[j].name);
    }
}

proof fn lemma_placed_distinct(modules: Seq<ModuleView>, module: ModuleView)
    requires
        strictly_in_order(modules),
        forall|i: int| 0 <= i < modules.len() ==> (#[trigger] modules[i]).name != module.name,
    ensures
        strictly_in_order(placed(modules, module)),
    decreases modules.len(),
{
    lemma_strictly_in_order(modules);
    lemma_placed(modules, module);
    if modules.len() > 0 && text::before(module.name, modules.last().name) {
        let front = modules.drop_last();
        let last = modules.last();
        lemma_placed_distinct(front, module);
        assert(in_order(front));
        lemma_placed(front, module);
        let inner = placed(front, module);
        assert forall|i: int| 0 <= i < inner.len() implies text::before(
            (#[trigger] inner[i]).name,
            last.name,
        ) by {
            assert(inner.contains(inner[i]));
            if inner[i] != module {
                let k = choose|k: int| 0 <= k < front.len() && front[k] == inner[i];
                assert(text::before(modules[k].name, modules[modules.len() - 1].name));
            }
        }
    } else if modules.len() > 0 {
        let last = modules.last();
        text::text_is_ordered(last.name, module.name, module.name);
        assert(modules[modules.len() - 1].name != module.name);
        assert forall|i: int| 0 <= i < modules.len() implies text::before(
            (#[trigger] modules[i]).name,
            module.name,
        ) by {
            if i < modules.len() - 1 {
                assert(text::before(modules[i].name, modules[modules.len() - 1].name));
                text::text_is_ordered(modules[i].name, last.name, module.name);
            }
        }
    }
}

proof fn lemma_sorted_strictly(modules: Seq<ModuleView>)
    requires
        distinct_names(modules),
    ensures
        strictly_in_order(sorted(modules)),
    decreases modules.len(),
{
    if modules.len() > 0 {
        let front = modules.drop_last();
        lemma_sorted_strictly(front);
        let done = sorted(front);
        assert forall|i: int| 0 <= i < done.len() implies (#[trigger] done[i]).name
            != modules.last().name by {
            lemma_sorted_members(front, done[i]);
            assert(done.contains(done[i]));
            let k = choose|k: int| 0 <= k < front.len() && front[k] == done[i];
            assert(modules[k] == done[i]);
            assert(modules[modules.len() - 1] == modules.last());
        }
        lemma_placed_distinct(done, modules.last());
    }
}

/// The order in which nested modules stand in the source does not matter,
/// provided that no two have the same name.
pub proof fn source_order_does_not_matter(a: Seq<ModuleView>, b: Seq<ModuleView>)
    requires
        distinct_names(a),
        distinct_names(b),
        a.to_multiset() == b.to_multiset(),
    ensures
        sorted(a) == sorted(b),
{
    broadcast use vstd::seq_lib::group_to_multiset_ensures;

    lemma_sorted_strictly(a);
    lemma_sorted_strictly(b);
    assert forall|x: ModuleView| sorted(a).contains(x) <==> sorted(b).contains(x) by {
        lemma_sorted_members(a, x);
        lemma_sorted_members(b, x);
        assert(a.contains(x) <==> a.to_multiset().count(x) > 0);
        assert(b.contains(x) <==> b.to_multiset().count(x) > 0);
    }
    lemma_same_members(sorted(a), sorted(b));
}

proof fn lemma_strictly_distinct(modules: Seq<ModuleView>)
    requires
        strictly_in_order(modules),
    ensures
        distinct_names(modules),
{
    assert forall|i: int, j: int| 0 <= i < j < modules.len() implies (#[trigger] modules[i]).name
        != (#[trigger] modules[j]).name by {
        text::text_is_ordered(modules[i].name, modules[j].name, modules[j].name);
    }
}

/// Sorting modules that are in order leaves them as they are.
pub proof fn sorting_keeps_order(modules: Seq<ModuleView>)
    requires
        strictly_in_order(modules),
    ensures
        sorted(modules) == modules,
{
    lemma_strictly_distinct(modules);
    lemma_sorted_strictly(modules);
    assert forall|x: ModuleView| sorted(modules).contains(x) <==> modules.contains(x) by {
        lemma_sorted_members(modules, x);
    }
    lemma_same_members(sorted(modules), modules);
}

/// The modules of a source file come out strictly in the order of their names,
/// so no two have the same name.
pub proof fn file_modules_are_ordered(items: Seq<ItemView>)
    ensures
        modules_of(items) matches Ok(modules) ==> strictly_in_order(modules) && distinct_names(
            modules,
        ),
    decreases items.len(),
{
    if items.len() > 0 {
        file_modules_are_ordered(items.drop_last());
        match (modules_of(items.drop_last()), items.last()) {
            (Ok(modules), ItemView::Mod(item)) => match module_of(item) {
                Ok(Some(module)) => {
                    let keep = |other: ModuleView| other.name != module.name;
                    let kept = without_name(modules, module.name);
                    lemma_filter_keeps_order(modules, keep);
                    assert forall|i: int| 0 <= i < kept.len() implies (#[trigger] kept[i]).name
                        != module.name by {
                        seqs::lemma_filter_member(modules, keep, kept[i]);
                        assert(kept.contains(kept[i]));
                    }
                    lemma_placed_distinct(kept, module);
                    lemma_strictly_distinct(placed(kept, module));
                },
                _ => {},
            },
            _ => {},
        }
    }
}

/// The module that an item defines, if it does.
pub open spec fn defined_by(item: ItemView) -> Option<ModuleView> {
    match item {
        ItemView::Mod(item) => match module_of(item) {
            Ok(module) => module,
            Err(_) => None,
        },
        _ => None,
    }
}

/// Whether an item holds nothing that is refused.
pub open spec fn is_accepted(item: ItemView) -> bool {
    item matches ItemView::Mod(item) ==> module_of(item) is Ok
}

/// Whether no two items define modules of the same name.
pub open spec fn define_distinct(items: Seq<ItemView>) -> bool {
    forall|i: int, j: int|
        0 <= i < j < items.len() && defined_by(#[trigger] items[i]) is Some && defined_by(
            #[trigger] items[j],
        ) is Some ==> defined_by(items[i])->0.name != defined_by(items[j])->0.name
}

proof fn lemma_file_accepted(items: Seq<ItemView>)
    ensures
        modules_of(items) is Ok <==> forall|i: int|
            0 <= i < items.len() ==> is_accepted(#[trigger] items[i]),
    decreases items.len(),
{
    if items.len() > 0 {
        let front = items.drop_last();
        lemma_file_accepted(front);
        assert forall|i: int| 0 <= i < front.len() implies #[trigger] front[i] == items[i] by {}
        if forall|i: int| 0 <= i < items.len() ==> is_accepted(#[trigger] items[i]) {
            assert(is_accepted(items[items.len() - 1]));
            assert forall|i: int| 0 <= i < front.len() implies is_accepted(
                #[trigger] front[i],
            ) by {
                assert(is_accepted(items[i]));
            }
        }
        if modules_of(items) is Ok {
            assert forall|i: int| 0 <= i < items.len() implies is_accepted(
                #[trigger] items[i],
            ) by {
                if i < front.len() {
                    assert(is_accepted(front[i]));
                }
            }
        }
    }
}

proof fn lemma_file_members(items: Seq<ItemView>, x: ModuleView)
    requires
        modules_of(items) is Ok,
        define_distinct(items),
    ensures
        modules_of(items)->Ok_0.contains(x) <==> exists|i: int|
            0 <= i < items.len() && defined_by(#[trigger] items[i]) == Some(x),
    decreases items.len(),
{
    if items.len() > 0 {
        let front = items.drop_last();
        let last = items.last();
        assert forall|i: int| 0 <= i < front.len() implies #[trigger] front[i] == items[i] by {}
        lemma_file_members(front, x);
        let before = modules_of(front)->Ok_0;
        let after = modules_of(items)->Ok_0;
        let found = exists|i: int|
            0 <= i < items.len() && defined_by(#[trigger] items[i]) == Some(x);
        if exists|i: int| 0 <= i < front.len() && defined_by(#[trigger] front[i]) == Some(x) {
            let i = choose|i: int|
                0 <= i < front.len() && defined_by(#[trigger] front[i]) == Some(x);
            assert(defined_by(items[i]) == Some(x));
        }
        if found {
            let i = choose|i: int|
                0 <= i < items.len() && defined_by(#[trigger] items[i]) == Some(x);
            if i < front.len() {
                assert(defined_by(front[i]) == Some(x));
            }
        }
        match defined_by(last) {
            Some(module) => {
                let keep = |other: ModuleView| other.name != module.name;
                let kept = without_name(before, module.name);
                file_modules_are_ordered(front);
                lemma_filter_keeps_order(before, keep);
                lemma_strictly_in_order(kept);
                lemma_placed(kept, module);
                seqs::lemma_filter_member(before, keep, x);
                assert(items[items.len() - 1] == last);
                if before.contains(x) {
                    let i = choose|i: int|
                        0 <= i < front.len() && defined_by(#[trigger] front[i]) == Some(x);
                    assert(items[i] == front[i]);
                    assert(x.name != module.name);
                }
                assert(after == placed(kept, module));
            },
            None => {
                assert(after == before);
            },
        }
    }
}

/// The order in which the modules of a file stand in the source does not
/// matter, provided that no two have the same name.
pub proof fn file_order_does_not_matter(a: Seq<ItemView>, b: Seq<ItemView>)
    requires
        define_distinct(a),
        define_distinct(b),
        a.to_multiset() == b.to_multiset(),
    ensures
        modules_of(a) is Ok <==> modules_of(b) is Ok,
        modules_of(a) is Ok ==> modules_of(a) == modules_of(b),
{
    broadcast use vstd::seq_lib::group_to_multiset_ensures;

    lemma_file_accepted(a);
    lemma_file_accepted(b);
    assert forall|x: ItemView| #[trigger] a.contains(x) <==> b.contains(x) by {
        assert(a.contains(x) <==> a.to_multiset().count(x) > 0);
        assert(b.contains(x) <==> b.to_multiset().count(x) > 0);
    }
    assert forall|i: int| 0 <= i < a.len() implies b.contains(#[trigger] a[i]) by {
        assert(a.contains(a[i]));
    }
    assert forall|i: int| 0 <= i < b.len() implies a.contains(#[trigger] b[i]) by {
        assert(b.contains(b[i]));
    }
    if modules_of(a) is Ok {
        assert forall|i: int| 0 <= i < b.len() implies is_accepted(#[trigger] b[i]) by {
            let k = choose|k: int| 0 <= k < a.len() && a[k] == b[i];
            assert(is_accepted(a[k]));
        }
    }
    if modules_of(b) is Ok {
        assert forall|i: int| 0 <= i < a.len() implies is_accepted(#[trigger] a[i]) by {
            let k = choose|k: int| 0 <= k < b.len() && b[k] == a[i];
            assert(is_accepted(b[k]));
        }
    }
    if modules_of(a) is Ok {
        let one = modules_of(a)->Ok_0;
        let other = modules_of(b)->Ok_0;
        assert forall|x: ModuleView| one.contains(x) <==> other.contains(x) by {
            lemma_file_members(a, x);
            lemma_file_members(b, x);
            if one.contains(x) {
                let i = choose|i: int| 0 <= i < a.len() && defined_by(#[trigger] a[i]) == Some(x);
                let k = choose|k: int| 0 <= k < b.len() && b[k] == a[i];
                assert(defined_by(b[k]) == Some(x));
            }
            if other.contains(x) {
                let i = choose|i: int| 0 <= i < b.len() && defined_by(#[trigger] b[i]) == Some(x);
                let k = choose|k: int| 0 <= k < a.len() && a[k] == b[i];
                assert(defined_by(a[k]) == Some(x));
            }
        }
        file_modules_are_ordered(a);
        file_modules_are_ordered(b);
        lemma_same_members(one, other);
    }
}

proof fn lemma_filter_keeps_order(modules: Seq<ModuleView>, keep: spec_fn(ModuleView) -> bool)
    requires
        strictly_in_order(modules),
    ensures
        strictly_in_order(modules.filter(keep)),
    decreases modules.len(),
{
    reveal(Seq::filter);
    if modules.len() > 0 {
        let front = modules.drop_last();
        let last = modules.last();
        lemma_filter_keeps_order(front, keep);
        let kept = front.filter(keep);
        assert forall|i: int| 0 <= i < kept.len() implies text::before(
            (#[trigger] kept[i]).name,
            last.name,
        ) by {
            seqs::lemma_filter_member(front, keep, kept[i]);
            assert(kept.contains(kept[i]));
            let k = choose|k: int| 0 <= k < front.len() && front[k] == kept[i];
            assert(text::before(modules[k].name, modules[modules.len() - 1].name));
        }
    }
}

proof fn lemma_no_clash(constants: Seq<ConstantView>, submodules: Seq<ModuleView>, i: int, j: int)
    requires
        first_clash(constants, submodules) is None,
        0 <= i < constants.len(),
        0 <= j < submodules.len(),
    ensures
        constants[i].name != submodules[j].name,
    decreases submodules.len(),
{
    if j == submodules.len() - 1 {
        lemma_not_named(constants, submodules[j].name, i);
    } else {
        lemma_no_clash(constants, submodules.drop_last(), i, j);
    }
}

proof fn lemma_not_named(constants: Seq<ConstantView>, name: Seq<char>, i: int)
    requires
        named_constant(constants, name) is None,
        0 <= i < constants.len(),
    ensures
        constants[i].name != name,
    decreases constants.len(),
{
    if i < constants.len() - 1 {
        lemma_not_named(constants.drop_last(), name, i);
    }
}

/// In a module that was accepted no constant has the name of a nested module,
/// and nested modules are in order.
pub proof fn accepted_modules_are_expressible(item: ModView, i: int, j: int)
    requires
        module_of(item) matches Ok(Some(module)) && 0 <= i < module.constants.len() && 0 <= j
            < module.submodules.len(),
    ensures
        module_of(item) matches Ok(Some(module)) ==> module.constants[i].name
            != module.submodules[j].name && in_order(module.submodules),
{
    let parts = parts_of(item.items->0)->Ok_0;
    sorting_orders_modules(parts.submodules);
    lemma_no_clash(parts.constants, sorted(parts.submodules), i, j);
}

/// A private module stays out, whatever it holds.
pub proof fn private_modules_stay_out(item: ModView, items: Seq<ItemView>)
    requires
        !item.public,
    ensures
        parts_of(items.push(ItemView::Mod(item))) == parts_of(items),
        modules_of(items.push(ItemView::Mod(item))) == modules_of(items),
{
    let more = items.push(ItemView::Mod(item));
    assert(more.drop_last() =~= items);
    assert(more.last() == ItemView::Mod(item));
}

/// A public constant whose type is a reference to `str` is taken, with its name
/// and the text that its value stands for. Any other constant is passed over,
/// whatever its value is.
pub proof fn public_text_constants_are_taken(item: ConstView, words: Seq<Seq<char>>)
    ensures
        !item.public ==> constant_of(item) == Ok::<Option<ConstantView>, ParseErrorView>(None),
        item.referent is None ==> constant_of(item) == Ok::<Option<ConstantView>, ParseErrorView>(
            None,
        ),
        item.referent == Some(words) && (words.len() == 0 || words.last() != "str"@)
            ==> constant_of(item) == Ok::<Option<ConstantView>, ParseErrorView>(None),
        item.public && item.referent == Some(words) && words.len() > 0 && words.last() == "str"@
            ==> match string_value(item.value) {
            Ok(value) => constant_of(item) matches Ok(Some(constant)) && constant.name
                == item.name && constant.value == value && constant.doc_comment == doc_comment(
                item.attrs,
            ),
            Err(error) => constant_of(item) matches Err(reported) && reported == error,
        },
{
}

/// A string stands for itself, a method call for what it is called on, and a
/// macro call for the strings among its tokens. Nothing else stands for text.
pub proof fn values_stand_for_text(value: Seq<char>, tokens: Seq<char>, receiver: ExprView)
    ensures
        string_value(ExprView::Str(value)) == Ok::<Seq<char>, ParseErrorView>(value),
        string_value(ExprView::MethodCall(Box::new(receiver))) == string_value(receiver),
        tokens.contains('"') ==> string_value(ExprView::Macro(tokens)) == Ok::<
            Seq<char>,
            ParseErrorView,
        >(names::quoted(tokens, false)),
        !tokens.contains('"') ==> (string_value(ExprView::Macro(tokens)) matches Err(error)
            && error is NoStringLiterals),
        string_value(ExprView::OtherLiteral) matches Err(error) && error is ExpectedStringLiteral,
        string_value(ExprView::Other) matches Err(error) && error is UnsupportedExpression,
{
}

/// Documentation is made of the `doc` attributes in order, each without the
/// spaces around it, and without those that say nothing.
pub proof fn documentation_is_collected(attrs: Seq<AttrView>, attr: AttrView)
    ensures
        doc_lines(Seq::empty()).len() == 0,
        attr.name == Some("doc"@) && attr.value is Some && text::trimmed(attr.value->0).len() > 0
            ==> doc_lines(attrs.push(attr)) == doc_lines(attrs).push(
            text::trimmed(attr.value->0),
        ),
        attr.name != Some("doc"@) || attr.value is None || text::trimmed(attr.value->0).len() == 0
            ==> doc_lines(attrs.push(attr)) == doc_lines(attrs),
        doc_comment(attrs) == names::joined(doc_lines(attrs)),
{
    assert(attrs.push(attr).drop_last() =~= attrs);
}

/// A macro whose name ends in `_name` tells the prefix of its module: the first
/// string behind its `concat !`, without the underscores at the string's end.
pub proof fn macros_tell_prefixes(
    name: Seq<char>,
    front: Seq<char>,
    gap: Seq<char>,
    prefix: Seq<char>,
    rest: Seq<char>,
)
    requires
        !gap.contains('"'),
        !prefix.contains('"'),
        names::part_from(
            front + "concat !"@ + gap + seq!['"'] + prefix + seq!['"'] + rest,
            "concat !"@,
            0,
        ) == Some(front.len() as int),
    ensures
        ({
            let tokens = front + "concat !"@ + gap + seq!['"'] + prefix + seq!['"'] + rest;
            &&& names::ends_with(name, "_name"@) ==> prefix_of(Some(name), tokens) == Some(
                names::without_trailing(prefix, '_'),
            )
            &&& !names::ends_with(name, "_name"@) ==> prefix_of(Some(name), tokens) is None
            &&& prefix_of(None, tokens) is None
        }),
{
    reveal_strlit("concat !");
    let tokens = front + "concat !"@ + gap + seq!['"'] + prefix + seq!['"'] + rest;
    let at = front.len() as int;
    let open = at + 8 + gap.len();
    let close = open + 1 + prefix.len();
    assert("concat !"@.len() == 8);
    assert(tokens[open] == '"');
    assert(tokens[close] == '"');
    assert forall|j: int| at <= j < open implies #[trigger] tokens[j] != '"' by {
        if j < at + 8 {
            assert(tokens[j] == "concat !"@[j - at]);
        } else {
            assert(tokens[j] == gap[j - at - 8]);
            assert(gap.contains(gap[j - at - 8]));
        }
    }
    assert forall|j: int| open < j < close implies #[trigger] tokens[j] != '"' by {
        assert(tokens[j] == prefix[j - open - 1]);
        assert(prefix.contains(prefix[j - open - 1]));
    }
    names::first_occurrence_is_found(tokens, '"', at);
    names::first_occurrence_is_found(tokens, '"', open + 1);
    assert(tokens.subrange(open + 1, close) =~= prefix);
}

/// A prefix and an underscore are put in front of a value, unless it begins with
/// the prefix already or is the prefix itself. Name and documentation stay.
pub proof fn values_get_their_prefix(constant: ConstantView, prefix: Seq<char>)
    ensures
        prefixed(constant, None) == constant,
        ({
            let after = prefixed(constant, Some(prefix));
            let begun = constant.value.len() >= prefix.len() && constant.value.take(
                prefix.len() as int,
            ) == prefix;
            &&& after.name == constant.name
            &&& after.doc_comment == constant.doc_comment
            &&& constant.name == "PREFIX"@ || begun ==> after.value == constant.value
            &&& constant.name != "PREFIX"@ && !begun ==> after.value == prefix + "_"@
                + constant.value
            &&& prefixed(after, Some(prefix)) == after
        }),
{
    reveal_strlit("_");
    assert("_"@ =~= seq!['_']);
    if constant.value.len() >= prefix.len() {
        assert(constant.value.subrange(0, prefix.len() as int) =~= constant.value.take(
            prefix.len() as int,
        ));
    }
    let after = prefixed(constant, Some(prefix));
    if after != constant {
        assert(after.value.subrange(0, prefix.len() as int) =~= prefix);
    }
}

/// What an item adds to its module: a constant that is taken comes behind the
/// others, a nested module too, the last macro that tells a prefix decides, and
/// anything else adds nothing. An item that is refused, and what follows it, is
/// refused with the module.
pub proof fn items_add_up(items: Seq<ItemView>, item: ItemView)
    ensures
        parts_of(Seq::empty()) matches Ok(none) && none.constants.len() == 0
            && none.submodules.len() == 0 && none.macro_prefix is None,
        parts_of(items) is Err ==> parts_of(items.push(item)) == parts_of(items),
        parts_of(items) matches Ok(before) ==> match item {
            ItemView::Const(item_const) => match constant_of(item_const) {
                Err(error) => parts_of(items.push(item)) == Err::<PartsView, ParseErrorView>(error),
                Ok(None) => parts_of(items.push(item)) == parts_of(items),
                Ok(Some(constant)) => parts_of(items.push(item)) matches Ok(after)
                    && after.constants == before.constants.push(constant) && after.submodules
                    == before.submodules && after.macro_prefix == before.macro_prefix,
            },
            ItemView::Mod(item_mod) => match module_of(item_mod) {
                Err(error) => parts_of(items.push(item)) == Err::<PartsView, ParseErrorView>(error),
                Ok(None) => parts_of(items.push(item)) == parts_of(items),
                Ok(Some(module)) => parts_of(items.push(item)) matches Ok(after)
                    && after.submodules == before.submodules.push(module) && after.constants
                    == before.constants && after.macro_prefix == before.macro_prefix,
            },
            ItemView::Macro { name, tokens } => match prefix_of(name, tokens) {
                None => parts_of(items.push(item)) == parts_of(items),
                Some(prefix) => parts_of(items.push(item)) matches Ok(after) && after.constants
                    == before.constants && after.submodules == before.submodules
                    && after.macro_prefix == Some(prefix),
            },
            ItemView::Other => parts_of(items.push(item)) == parts_of(items),
        },
{
    assert(items.push(item).drop_last() =~= items);
}

/// A public module with its contents becomes a module of the same name: all of
/// its constants in order with the prefix, if there is one, its nested modules
/// sorted and without the prefix, and its documentation.
pub proof fn modules_are_taken_whole(item: ModView, parts: PartsView, i: int)
    requires
        item.public,
        item.items is Some,
        parts_of(item.items->0) == Ok::<PartsView, ParseErrorView>(parts),
    ensures
        module_of(item) matches Ok(found) ==> found matches Some(module) && {
            &&& module.name == item.name
            &&& module.doc_comment == doc_comment(item.attrs)
            &&& module.constants.len() == parts.constants.len()
            &&& 0 <= i < parts.constants.len() ==> module.constants[i].name
                == parts.constants[i].name && module.constants[i] == prefixed(
                parts.constants[i],
                parts.macro_prefix,
            )
            &&& module.submodules == sorted(parts.submodules)
            &&& module.macro_prefix == parts.macro_prefix
            &&& module.is_macro_generated == (parts.macro_prefix is Some)
        },
{
}

/// A module is refused for a clash just if one of its constants has the name of
/// one of its nested modules, and the error names both.
pub proof fn clashes_are_refused(item: ModView, parts: PartsView)
    requires
        item.public,
        item.items is Some,
        parts_of(item.items->0) == Ok::<PartsView, ParseErrorView>(parts),
    ensures
        module_of(item) is Err <==> exists|i: int, j: int|
            0 <= i < parts.constants.len() && 0 <= j < parts.submodules.len() && (
            #[trigger] parts.constants[i]).name == (#[trigger] parts.submodules[j]).name,
        module_of(item) matches Err(error) ==> error matches ParseErrorView::NameClash {
            module,
            name,
            value,
        } && module == item.name && (exists|i: int|
            0 <= i < parts.constants.len() && (#[trigger] parts.constants[i]).name == name
                && parts.constants[i].value == value) && (exists|j: int|
            0 <= j < parts.submodules.len() && (#[trigger] parts.submodules[j]).name == name),
{
    let subs = sorted(parts.submodules);
    match first_clash(parts.constants, subs) {
        Some((child, constant)) => {
            lemma_clash_is_real(parts.constants, subs);
            let i = choose|i: int|
                0 <= i < parts.constants.len() && #[trigger] parts.constants[i] == constant;
            assert(subs.contains(child));
            lemma_sorted_members(parts.submodules, child);
            let j = choose|j: int|
                0 <= j < parts.submodules.len() && parts.submodules[j] == child;
            assert(parts.constants[i].name == parts.submodules[j].name);
        },
        None => {
            assert forall|i: int, j: int|
                0 <= i < parts.constants.len() && 0 <= j < parts.submodules.len() implies (
            #[trigger] parts.constants[i]).name != (#[trigger] parts.submodules[j]).name by {
                lemma_sorted_members(parts.submodules, parts.submodules[j]);
                assert(parts.submodules.contains(parts.submodules[j]));
                let k = choose|k: int| 0 <= k < subs.len() && subs[k] == parts.submodules[j];
                lemma_no_clash(parts.constants, subs, i, k);
            }
        },
    }
}

proof fn lemma_named_is_real(constants: Seq<ConstantView>, name: Seq<char>)
    ensures
        named_constant(constants, name) matches Some(constant) ==> constant.name == name && exists|
            i: int,
        |
            0 <= i < constants.len() && #[trigger] constants[i] == constant,
    decreases constants.len(),
{
    if constants.len() > 0 {
        lemma_named_is_real(constants.drop_last(), name);
        if let Some(constant) = named_constant(constants.drop_last(), name) {
            let i = choose|i: int|
                0 <= i < constants.len() - 1 && #[trigger] constants.drop_last()[i] == constant;
            assert(constants[i] == constant);
        } else {
            assert(constants[constants.len() - 1] == constants.last());
        }
    }
}

proof fn lemma_clash_is_real(constants: Seq<ConstantView>, submodules: Seq<ModuleView>)
    ensures
        first_clash(constants, submodules) matches Some((child, constant)) ==> child.name
            == constant.name && submodules.contains(child) && exists|i: int|
            0 <= i < constants.len() && #[trigger] constants[i] == constant,
    decreases submodules.len(),
{
    if submodules.len() > 0 {
        lemma_clash_is_real(constants, submodules.drop_last());
        if let Some((child, constant)) = first_clash(constants, submodules.drop_last()) {
            let j = choose|j: int|
                0 <= j < submodules.len() - 1 && submodules.drop_last()[j] == child;
            assert(submodules[j] == child);
        } else {
            lemma_named_is_real(constants, submodules.last().name);
            assert(submodules[submodules.len() - 1] == submodules.last());
        }
    }
}

/// One more module in a file is there with the others. It takes the place of one
/// of the same name.
pub proof fn later_modules_count(items: Seq<ItemView>, item: ModView, other: ModuleView)
    requires
        modules_of(items) is Ok,
        module_of(item) is Ok,
    ensures
        ({
            let before = modules_of(items)->Ok_0;
            let after = modules_of(items.push(ItemView::Mod(item)));
            &&& after is Ok
            &&& module_of(item)->Ok_0 is None ==> after->Ok_0 == before
            &&& module_of(item)->Ok_0 matches Some(module) ==> (after->Ok_0.contains(other)
                <==> other == module || (before.contains(other) && other.name != module.name))
        }),
{
    let all = items.push(ItemView::Mod(item));
    assert(all.drop_last() =~= items);
    assert(all.last() == ItemView::Mod(item));
    if let Some(module) = module_of(item)->Ok_0 {
        let before = modules_of(items)->Ok_0;
        let keep = |m: ModuleView| m.name != module.name;
        let kept = without_name(before, module.name);
        file_modules_are_ordered(items);
        lemma_filter_keeps_order(before, keep);
        lemma_strictly_in_order(kept);
        lemma_placed(kept, module);
        seqs::lemma_filter_member(before, keep, other);
    }
}

/// The result of reading a module is what was read.
pub proof fn results_are_what_was_read(
    r: Result<Option<ModuleDef>, ParseError>,
    expected: Result<Option<ModuleView>, ParseErrorView>,
)
    requires
        parse_result(r, expected),
    ensures
        r is Ok <==> expected is Ok,
        r is Err ==> r->Err_0@ == expected->Err_0,
        r is Ok ==> (r->Ok_0 is Some <==> expected->Ok_0 is Some),
        r is Ok && r->Ok_0 is Some ==> module_view(r->Ok_0->0) == expected->Ok_0->0,
{
}

/// A module as a value holds all that the module holds.
pub proof fn module_views_are_complete(module: ModuleDef, i: int)
    ensures
        module_view(module).name == module.name@,
        module_view(module).doc_comment == module.doc_comment@,
        module_view(module).is_macro_generated == module.is_macro_generated,
        module_view(module).constants.len() == module.constants@.len(),
        module_view(module).submodules.len() == module.submodules@.len(),
        0 <= i < module.constants@.len() ==> module_view(module).constants[i].name
            == module.constants@[i].name@ && module_view(module).constants[i].value
            == module.constants@[i].value@ && module_view(module).constants[i].doc_comment
            == module.constants@[i].doc_comment@,
        0 <= i < module.submodules@.len() ==> module_view(module).submodules[i] == module_view(
            module.submodules@[i],
        ),
{
}

/// Errors tell what is wrong, and a clash tells where and between what.
pub proof fn errors_tell_what_is_wrong(module: Seq<char>, name: Seq<char>, value: Seq<char>)
    ensures
        error_message(ParseErrorView::InvalidSource) == "Failed to parse Rust file"@,
        error_message(ParseErrorView::ExpectedStringLiteral) == "Expected string literal"@,
        error_message(ParseErrorView::NoStringLiterals) == "No string literals found in macro"@,
        error_message(ParseErrorView::UnsupportedExpression)
            == "Unsupported expression type for constant value"@,
        names::begins_with(
            error_message(ParseErrorView::NameClash { module, name, value }),
            "module `"@ + module + "` declares both a constant and a nested module named `"@
                + name + "`"@,
        ),
        names::ends_with(
            error_message(ParseErrorView::NameClash { module, name, value }),
            value + "\")."@,
        ),
{
    let message = error_message(ParseErrorView::NameClash { module, name, value });
    let front = "module `"@ + module + "` declares both a constant and a nested module named `"@
        + name;
    let middle = "`; Python cannot express both as attributes of one class. Rename one of them (the constant currently resolves to \""@;
    let back = value + "\")."@;
    reveal_strlit("`");
    reveal_strlit(
        "`; Python cannot express both as attributes of one class. Rename one of them (the constant currently resolves to \"",
    );
    assert(message =~= (front + "`"@) + (middle.skip(1) + back));
    names::beginnings_and_endings(front + "`"@, middle.skip(1) + back, Seq::empty());
    assert(message =~= (front + middle) + back);
    names::beginnings_and_endings(front + middle, back, Seq::empty());
}

/// Tells the modules of one name.
pub open spec fn named(name: Seq<char>) -> spec_fn(ModuleView) -> bool {
    |module: ModuleView| module.name == name
}

proof fn lemma_placed_behind(modules: Seq<ModuleView>, module: ModuleView, name: Seq<char>)
    ensures
        placed(modules, module).filter(named(name)) == if module.name == name {
            modules.filter(named(name)).push(module)
        } else {
            modules.filter(named(name))
        },
    decreases modules.len(),
{
    reveal(Seq::filter);
    if modules.len() > 0 && text::before(module.name, modules.last().name) {
        let front = modules.drop_last();
        lemma_placed_behind(front, module, name);
        let inner = placed(front, module);
        assert(inner.push(modules.last()).drop_last() =~= inner);
        text::text_is_ordered(module.name, module.name, modules.last().name);
    } else {
        assert(modules.push(module).drop_last() =~= modules);
    }
}

/// Modules of the same name stay in the order in which they came.
pub proof fn sorting_is_stable(modules: Seq<ModuleView>, name: Seq<char>)
    ensures
        sorted(modules).filter(named(name)) == modules.filter(named(name)),
    decreases modules.len(),
{
    reveal(Seq::filter);
    if modules.len() > 0 {
        sorting_is_stable(modules.drop_last(), name);
        lemma_placed_behind(sorted(modules.drop_last()), modules.last(), name);
    }
}

/// Lists of modules and constants are seen in order and whole.
pub proof fn lists_are_seen_whole(
    modules: Seq<ModuleDef>,
    refs: Seq<&ModuleDef>,
    constants: Seq<ConstantDef>,
    i: int,
)
    ensures
        module_views(modules).len() == modules.len(),
        0 <= i < modules.len() ==> module_views(modules)[i] == module_view(modules[i]),
        ref_views(refs).len() == refs.len(),
        0 <= i < refs.len() ==> ref_views(refs)[i] == module_view(*refs[i]),
        constant_views(constants).len() == constants.len(),
        0 <= i < constants.len() ==> constant_views(constants)[i].name == constants[i].name@
            && constant_views(constants)[i].value == constants[i].value@ && constant_views(
            constants,
        )[i].doc_comment == constants[i].doc_comment@,
{
}

/// A macro without a name that ends in `_name`, without a `concat !`, or without
/// a string behind it, tells no prefix.
pub proof fn other_macros_tell_no_prefix(name: Option<Seq<char>>, tokens: Seq<char>)
    requires
        prefix_of(name, tokens) is Some,
    ensures
        name is Some,
        names::ends_with(name->0, "_name"@),
        exists|at: int, open: int, close: int|
            0 <= at < open < close < tokens.len() && names::occurs_at(tokens, "concat !"@, at)
                && #[trigger] tokens[open] == '"' && #[trigger] tokens[close] == '"'
                && #[trigger] names::occurs_at(tokens, "concat !"@, at) && prefix_of(name, tokens)
                == Some(names::without_trailing(tokens.subrange(open + 1, close), '_')),
{
    reveal_strlit("concat !");
    names::first_part_is_found(tokens, "concat !"@, 0);
    let at = names::part_from(tokens, "concat !"@, 0)->0;
    names::first_occurrence_is_found(tokens, '"', at);
    let open = names::index_from(tokens, '"', at)->0;
    names::first_occurrence_is_found(tokens, '"', open + 1);
    let close = names::index_from(tokens, '"', open + 1)->0;
    assert(tokens.subrange(at, at + "concat !"@.len())[0] == tokens[at]);
    assert("concat !"@[0] != '"');
    assert(names::occurs_at(tokens, "concat !"@, at));
    assert(tokens[open] == '"' && tokens[close] == '"');
}

} // verus!
