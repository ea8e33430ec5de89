//! Writes modules of metric names as Python classes.

use crate::codegen::names;
use crate::codegen::parser;
use crate::codegen::parser::{
    by_name, ConstantDef, ConstantView, ModuleDef, ModuleView, PrometheusParser,
};
use crate::seqs;
use crate::text;
use vstd::prelude::*;

verus! {

/// One level of indentation.
pub open spec fn indent() -> Seq<char> {
    "    "@
}

/// The documentation line of a class, if it has one.
pub open spec fn docstring(doc_comment: Seq<char>) -> Seq<char> {
    let lines = names::lines_of(doc_comment);
    if lines.len() == 0 {
        Seq::empty()
    } else {
        text::trimmed(lines[0])
    }
}

/// The lines that introduce a class.
pub open spec fn header_lines(module: ModuleView, pad: Seq<char>) -> Seq<Seq<char>> {
    let first = pad + "class "@ + module.name + ":"@;
    let doc = docstring(module.doc_comment);
    if doc.len() == 0 {
        seq![first]
    } else {
        seq![first, pad + indent() + "\"\"\""@ + doc + "\"\"\""@]
    }
}

/// Comment lines.
pub open spec fn comment_lines(lines: Seq<Seq<char>>, pad: Seq<char>) -> Seq<Seq<char>> {
    lines.map_values(|line: Seq<char>| pad + "# "@ + line)
}

/// The lines for one constant.
pub open spec fn constant_lines(constant: ConstantView, pad: Seq<char>) -> Seq<Seq<char>> {
    comment_lines(names::lines_of(constant.doc_comment), pad).push(
        pad + constant.name + " = \""@ + constant.value + "\""@,
    )
}

/// The lines for some constants.
pub open spec fn constants_lines(constants: Seq<ConstantView>, pad: Seq<char>) -> Seq<Seq<char>>
    decreases constants.len(),
{
    if constants.len() == 0 {
        Seq::empty()
    } else {
        constants_lines(constants.drop_last(), pad) + constant_lines(constants.last(), pad)
    }
}

/// The lines for nested classes, each after an empty one.
pub open spec fn nested_lines(modules: Seq<ModuleView>, pad: Seq<char>) -> Seq<Seq<char>>
    decreases modules,
{
    if modules.len() == 0 {
        Seq::empty()
    } else {
        nested_lines(modules.drop_last(), pad).push(Seq::empty()) + class_lines(
            modules.last(),
            pad,
        )
    }
}

/// Whether a class has anything in it.
pub open spec fn has_body(module: ModuleView) -> bool {
    docstring(module.doc_comment).len() > 0 || module.constants.len() > 0
        || module.submodules.len() > 0
}

/// The lines for a class, its constants before its nested classes.
pub open spec fn class_lines(module: ModuleView, pad: Seq<char>) -> Seq<Seq<char>>
    decreases module,
{
    let body = pad + indent();
    let constants = if module.constants.len() == 0 {
        Seq::empty()
    } else {
        seq![Seq::<char>::empty()] + constants_lines(module.constants, body)
    };
    let rest = if has_body(module) {
        Seq::empty()
    } else {
        seq![body + "pass"@]
    };
    header_lines(module, pad) + constants + nested_lines(module.submodules, body) + rest
}

/// The lines for the classes of a file, with two empty lines between them.
pub open spec fn file_lines(modules: Seq<ModuleView>) -> Seq<Seq<char>>
    decreases modules.len(),
{
    if modules.len() == 0 {
        Seq::empty()
    } else if modules.len() == 1 {
        class_lines(modules[0], Seq::empty())
    } else {
        file_lines(modules.drop_last()).push(Seq::empty()).push(Seq::empty()) + class_lines(
            modules.last(),
            Seq::empty(),
        )
    }
}

/// The text of the classes of a file.
pub open spec fn classes_text(modules: Seq<ModuleView>) -> Seq<char> {
    names::joined(file_lines(modules).push(Seq::empty()))
}

/// `depth` times `unit`.
pub open spec fn repeated(unit: Seq<char>, depth: nat) -> Seq<char>
    decreases depth,
{
    if depth == 0 {
        Seq::empty()
    } else {
        repeated(unit, (depth - 1) as nat) + unit
    }
}

fn repeat(unit: &str, depth: usize) -> (r: String)
    ensures
        r@ == repeated(unit@, depth as nat),
{
    let mut out = String::new();
    let mut i: usize = 0;
    while i < depth
        invariant
            i <= depth,
            out@ == repeated(unit@, i as nat),
        decreases depth - i,
    {
        out.append(unit);
        i += 1;
    }
    out
}

fn read_docstring(doc_comment: &str) -> (r: String)
    ensures
        r@ == docstring(doc_comment@),
{
    let lines = names::split_lines(doc_comment);
    if lines.len() == 0 {
        let empty = String::new();
        assert(empty@ =~= Seq::empty());
        empty
    } else {
        assert(seqs::texts(lines@)[0] == lines@[0]@);
        text::trim(lines[0].as_str())
    }
}

fn push_line(lines: &mut Vec<String>, line: String)
    ensures
        seqs::texts(final(lines)@) == seqs::texts(old(lines)@).push(line@),
{
    lines.push(line);
    assert(seqs::texts(lines@) =~= seqs::texts(old(lines)@).push(line@));
}

fn push_empty(lines: &mut Vec<String>)
    ensures
        seqs::texts(final(lines)@) == seqs::texts(old(lines)@).push(Seq::empty()),
{
    let line = String::new();
    assert(line@ =~= Seq::<char>::empty());
    push_line(lines, line);
}

fn render_constant(constant: &ConstantDef, pad: &str, lines: &mut Vec<String>)
    ensures
        seqs::texts(final(lines)@) == seqs::texts(old(lines)@) + constant_lines(constant@, pad@),
{
    let comments = names::split_lines(constant.doc_comment.as_str());
    let ghost all = seqs::texts(comments@);
    let ghost start = seqs::texts(lines@);
    let mut i: usize = 0;
    assert(start + comment_lines(all.take(0), pad@) =~= start);
    while i < comments.len()
        invariant
            i <= comments@.len(),
            all == seqs::texts(comments@),
            seqs::texts(lines@) == start + comment_lines(all.take(i as int), pad@),
        decreases comments@.len() - i,
    {
        let mut line = pad.to_owned();
        line.append("# ");
        line.append(comments[i].as_str());
        push_line(lines, line);
        proof {
            assert(all[i as int] == comments@[i as int]@);
            assert(comment_lines(all.take(i + 1), pad@) =~= comment_lines(
                all.take(i as int),
                pad@,
            ).push(line@));
            assert(start + comment_lines(all.take(i as int), pad@).push(line@) =~= (start
                + comment_lines(all.take(i as int), pad@)).push(line@));
        }
        i += 1;
    }
    assert(all.take(all.len() as int) =~= all);
    let mut line = pad.to_owned();
    line.append(constant.name.as_str());
    line.append(" = \"");
    line.append(constant.value.as_str());
    line.append("\"");
    push_line(lines, line);
    assert(seqs::texts(lines@) =~= start + constant_lines(constant@, pad@));
}

fn render_constants(constants: &Vec<ConstantDef>, pad: &str, lines: &mut Vec<String>)
    ensures
        seqs::texts(final(lines)@) == seqs::texts(old(lines)@) + constants_lines(
            parser::constant_views(constants@),
            pad@,
        ),
{
    let ghost all = parser::constant_views(constants@);
    let ghost start = seqs::texts(lines@);
    let mut i: usize = 0;
    proof {
        assert(all.take(0) =~= Seq::empty());
        assert(start + constants_lines(all.take(0), pad@) =~= start);
    }
    while i < constants.len()
        invariant
            i <= constants@.len(),
            all == parser::constant_views(constants@),
            seqs::texts(lines@) == start + constants_lines(all.take(i as int), pad@),
        decreases constants@.len() - i,
    {
        render_constant(&constants[i], pad, lines);
        proof {
            assert(all.take(i + 1).drop_last() =~= all.take(i as int));
            assert(all.take(i + 1).last() == constants@[i as int]@);
            assert(seqs::texts(lines@) =~= start + constants_lines(all.take(i + 1), pad@));
        }
        i += 1;
    }
    assert(all.take(all.len() as int) =~= all);
}

fn render_with_pad(module: &ModuleDef, pad: &str, lines: &mut Vec<String>)
    ensures
        seqs::texts(final(lines)@) == seqs::texts(old(lines)@) + class_lines(
            parser::module_view(*module),
            pad@,
        ),
    decreases module,
{
    let ghost view = parser::module_view(*module);
    let ghost start = seqs::texts(lines@);
    let mut body_pad = pad.to_owned();
    body_pad.append("    ");
    let mut first = pad.to_owned();
    first.append("class ");
    first.append(module.name.as_str());
    first.append(":");
    push_line(lines, first);
    let doc = read_docstring(module.doc_comment.as_str());
    let has_doc = !text::is_blank(doc.as_str());
    if has_doc {
        let mut line = body_pad.clone();
        line.append("\"\"\"");
        line.append(doc.as_str());
        line.append("\"\"\"");
        push_line(lines, line);
    }
    assert(seqs::texts(lines@) =~= start + header_lines(view, pad@));
    let ghost headed = seqs::texts(lines@);
    let ghost mut constants: Seq<Seq<char>> = Seq::empty();
    if module.constants.len() != 0 {
        push_empty(lines);
        render_constants(&module.constants, body_pad.as_str(), lines);
        proof {
            constants = seq![Seq::<char>::empty()] + constants_lines(view.constants, body_pad@);
            assert(seqs::texts(lines@) =~= headed + constants);
        }
    } else {
        assert(headed =~= headed + constants);
    }
    let ghost front = seqs::texts(lines@);
    let mut i: usize = 0;
    proof {
        assert(view.submodules.take(0) =~= Seq::empty());
        assert(front + nested_lines(view.submodules.take(0), body_pad@) =~= front);
    }
    while i < module.submodules.len()
        invariant
            i <= module.submodules@.len(),
            view == parser::module_view(*module),
            seqs::texts(lines@) == front + nested_lines(
                view.submodules.take(i as int),
                body_pad@,
            ),
        decreases module.submodules@.len() - i,
    {
        push_empty(lines);
        render_with_pad(&module.submodules[i], body_pad.as_str(), lines);
        proof {
            let children = view.submodules;
            assert(children.take(i + 1).drop_last() =~= children.take(i as int));
            assert(children.take(i + 1).last() == parser::module_view(
                module.submodules@[i as int],
            ));
            assert(seqs::texts(lines@) =~= front + nested_lines(children.take(i + 1), body_pad@));
        }
        i += 1;
    }
    assert(view.submodules.take(view.submodules.len() as int) =~= view.submodules);
    if !has_doc && module.constants.len() == 0 && module.submodules.len() == 0 {
        let mut line = body_pad.clone();
        line.append("pass");
        push_line(lines, line);
    }
    assert(seqs::texts(lines@) =~= start + class_lines(view, pad@));
}

/// Writes a module as a class, nested `depth` levels deep. Nested modules become
/// nested classes.
pub fn render_class(module: &ModuleDef, depth: usize, lines: &mut Vec<String>)
    ensures
        seqs::texts(final(lines)@) == seqs::texts(old(lines)@) + class_lines(
            parser::module_view(*module),
            repeated(indent(), depth as nat),
        ),
{
    let pad = repeat("    ", depth);
    render_with_pad(module, pad.as_str(), lines);
}

/// Writes the modules of a source file as Python classes, in the order of their
/// names.
pub fn generate_classes(parser: &PrometheusParser) -> (r: String)
    requires
        parser.wf(),
    ensures
        r@ == classes_text(parser::sorted(parser::module_views(parser.modules@))),
{
    let modules = by_name(&parser.modules);
    let ghost all = parser::ref_views(modules@);
    let mut lines: Vec<String> = Vec::new();
    let mut i: usize = 0;
    proof {
        assert(all.take(0) =~= Seq::empty());
        assert(seqs::texts(lines@) =~= Seq::empty());
    }
    while i < modules.len()
        invariant
            i <= modules@.len(),
            all == parser::ref_views(modules@),
            seqs::texts(lines@) == file_lines(all.take(i as int)),
        decreases modules@.len() - i,
    {
        if i > 0 {
            push_empty(&mut lines);
            push_empty(&mut lines);
        }
        render_class(modules[i], 0, &mut lines);
        proof {
            let more = all.take(i + 1);
            assert(more.drop_last() =~= all.take(i as int));
            assert(more.last() == parser::module_view(*modules@[i as int]));
            assert(repeated(indent(), 0) =~= Seq::empty());
            assert(seqs::texts(lines@) =~= file_lines(more));
        }
        i += 1;
    }
    assert(all.take(all.len() as int) =~= all);
    push_empty(&mut lines);
    names::join_lines(&lines)
}

/// Writes the whole Python file: what it begins with, and the classes.
pub fn generate_python_file(template: &str, parser: &PrometheusParser) -> (r: String)
    requires
        parser.wf(),
    ensures
        r@ == template@ + classes_text(parser::sorted(parser::module_views(parser.modules@))),
{
    let mut output = template.to_owned();
    let classes = generate_classes(parser);
    output.append(classes.as_str());
    output
}

/// The line that sums a module up.
pub open spec fn summary_line(module: ModuleView, pad: Seq<char>) -> Seq<char> {
    "  "@ + pad + "- "@ + module.name + ": "@ + text::decimal_digits(module.constants.len())
        + " constants"@ + if module.is_macro_generated {
        " (macro-generated)"@
    } else {
        Seq::empty()
    }
}

/// The lines that sum some modules up.
pub open spec fn summaries(modules: Seq<ModuleView>, pad: Seq<char>) -> Seq<Seq<char>>
    decreases modules,
{
    if modules.len() == 0 {
        Seq::empty()
    } else {
        summaries(modules.drop_last(), pad) + summary_lines(modules.last(), pad)
    }
}

/// The lines that sum a module and its nested modules up.
pub open spec fn summary_lines(module: ModuleView, pad: Seq<char>) -> Seq<Seq<char>>
    decreases module,
{
    seq![summary_line(module, pad)] + summaries(module.submodules, pad + "  "@)
}

fn summarize(module: &ModuleDef, pad: &str, lines: &mut Vec<String>)
    ensures
        seqs::texts(final(lines)@) == seqs::texts(old(lines)@) + summary_lines(
            parser::module_view(*module),
            pad@,
        ),
    decreases module,
{
    let ghost view = parser::module_view(*module);
    let ghost start = seqs::texts(lines@);
    let mut line = "  ".to_owned();
    line.append(pad);
    line.append("- ");
    line.append(module.name.as_str());
    line.append(": ");
    let count = text::decimal(module.constants.len() as u64);
    line.append(count.as_str());
    line.append(" constants");
    if module.is_macro_generated {
        line.append(" (macro-generated)");
    }
    assert(line@ =~= summary_line(view, pad@));
    push_line(lines, line);
    let mut inner = pad.to_owned();
    inner.append("  ");
    let ghost front = seqs::texts(lines@);
    let mut i: usize = 0;
    proof {
        assert(view.submodules.take(0) =~= Seq::empty());
        assert(front + summaries(view.submodules.take(0), inner@) =~= front);
    }
    while i < module.submodules.len()
        invariant
            i <= module.submodules@.len(),
            view == parser::module_view(*module),
            seqs::texts(lines@) == front + summaries(view.submodules.take(i as int), inner@),
        decreases module.submodules@.len() - i,
    {
        summarize(&module.submodules[i], inner.as_str(), lines);
        proof {
            let children = view.submodules;
            assert(children.take(i + 1).drop_last() =~= children.take(i as int));
            assert(children.take(i + 1).last() == parser::module_view(
                module.submodules@[i as int],
            ));
            assert(seqs::texts(lines@) =~= front + summaries(children.take(i + 1), inner@));
        }
        i += 1;
    }
    assert(view.submodules.take(view.submodules.len() as int) =~= view.submodules);
    assert(seqs::texts(lines@) =~= start + summary_lines(view, pad@));
}

/// Sums a module and its nested modules up, nested ones indented.
pub fn print_module_summary(module: &ModuleDef) -> (r: Vec<String>)
    ensures
        seqs::texts(r@) == summary_lines(parser::module_view(*module), Seq::empty()),
{
    let mut lines: Vec<String> = Vec::new();
    let pad = "";
    proof {
        reveal_strlit("");
        assert(pad@ =~= Seq::empty());
    }
    summarize(module, pad, &mut lines);
    assert(seqs::texts(lines@) =~= summary_lines(parser::module_view(*module), Seq::empty()));
    lines
}

/// Whether each of `lines` is empty or begins with `pad`.
pub open spec fn indented(lines: Seq<Seq<char>>, pad: Seq<char>) -> bool {
    forall|i: int|
        0 <= i < lines.len() ==> (#[trigger] lines[i]).len() == 0 || names::begins_with(
            lines[i],
            pad,
        )
}

proof fn lemma_begins(pad: Seq<char>, rest: Seq<char>)
    ensures
        names::begins_with(pad + rest, pad),
{
    assert((pad + rest).subrange(0, pad.len() as int) =~= pad);
}

proof fn lemma_weaker(lines: Seq<Seq<char>>, pad: Seq<char>, more: Seq<char>)
    requires
        indented(lines, pad + more),
    ensures
        indented(lines, pad),
{
    assert forall|i: int| 0 <= i < lines.len() implies (#[trigger] lines[i]).len() == 0
        || names::begins_with(lines[i], pad) by {
        if lines[i].len() != 0 {
            let whole = pad + more;
            assert(lines[i].subrange(0, whole.len() as int) == whole);
            assert(lines[i].subrange(0, pad.len() as int) =~= whole.subrange(0, pad.len() as int));
            assert(whole.subrange(0, pad.len() as int) =~= pad);
        }
    }
}

proof fn lemma_constants_indented(constants: Seq<ConstantView>, pad: Seq<char>)
    ensures
        indented(constants_lines(constants, pad), pad),
    decreases constants.len(),
{
    if constants.len() > 0 {
        lemma_constants_indented(constants.drop_last(), pad);
        let last = constants.last();
        let lines = constant_lines(last, pad);
        let comments = names::lines_of(last.doc_comment);
        assert forall|i: int| 0 <= i < lines.len() implies names::begins_with(
            #[trigger] lines[i],
            pad,
        ) by {
            if i < comments.len() {
                assert(lines[i] =~= pad + ("# "@ + comments[i]));
                lemma_begins(pad, "# "@ + comments[i]);
            } else {
                let rest = last.name + " = \""@ + last.value + "\""@;
                assert(lines[i] =~= pad + rest);
                lemma_begins(pad, rest);
            }
        }
    }
}

proof fn lemma_nested_indented(modules: Seq<ModuleView>, pad: Seq<char>)
    ensures
        indented(nested_lines(modules, pad), pad),
    decreases modules,
{
    if modules.len() > 0 {
        lemma_nested_indented(modules.drop_last(), pad);
        class_is_indented(modules.last(), pad);
    }
}

/// Everything in a class stands one level deeper than the class itself.
pub proof fn class_is_indented(module: ModuleView, pad: Seq<char>)
    ensures
        indented(class_lines(module, pad), pad),
        indented(class_lines(module, pad).skip(1), pad + indent()),
        class_lines(module, pad)[0] == pad + "class "@ + module.name + ":"@,
    decreases module,
{
    let body = pad + indent();
    lemma_constants_indented(module.constants, body);
    lemma_nested_indented(module.submodules, body);
    let lines = class_lines(module, pad);
    let header = header_lines(module, pad);
    let doc = docstring(module.doc_comment);
    assert(header[0] =~= pad + ("class "@ + module.name + ":"@));
    lemma_begins(pad, "class "@ + module.name + ":"@);
    if doc.len() != 0 {
        assert(header[1] =~= body + ("\"\"\""@ + doc + "\"\"\""@));
        lemma_begins(body, "\"\"\""@ + doc + "\"\"\""@);
    }
    lemma_begins(body, "pass"@);
    assert(indented(lines.skip(1), body));
    lemma_weaker(lines.skip(1), pad, indent());
    assert forall|i: int| 0 <= i < lines.len() implies (#[trigger] lines[i]).len() == 0
        || names::begins_with(lines[i], pad) by {
        if i > 0 {
            assert(lines[i] == lines.skip(1)[i - 1]);
        }
    }
}

/// Lines with `more` in front of each one that is not empty.
pub open spec fn shifted(lines: Seq<Seq<char>>, more: Seq<char>) -> Seq<Seq<char>> {
    lines.map_values(
        |line: Seq<char>|
            if line.len() == 0 {
                line
            } else {
                more + line
            },
    )
}

proof fn lemma_constants_shifted(constants: Seq<ConstantView>, pad: Seq<char>, more: Seq<char>)
    ensures
        constants_lines(constants, more + pad) == shifted(constants_lines(constants, pad), more),
    decreases constants.len(),
{
    reveal_strlit("# ");
    reveal_strlit(" = \"");
    if constants.len() == 0 {
        assert(constants_lines(constants, more + pad) =~= shifted(
            constants_lines(constants, pad),
            more,
        ));
    } else {
        lemma_constants_shifted(constants.drop_last(), pad, more);
        let last = constants.last();
        let one = constant_lines(last, pad);
        let other = constant_lines(last, more + pad);
        let comments = names::lines_of(last.doc_comment);
        assert forall|i: int| 0 <= i < one.len() implies one[i].len() > 0 && #[trigger] other[i]
            == more + one[i] by {
            if i < comments.len() {
                assert(one[i] == pad + "# "@ + comments[i]);
                assert(other[i] =~= more + (pad + "# "@ + comments[i]));
            } else {
                assert(one[i] == pad + last.name + " = \""@ + last.value + "\""@);
                assert(other[i] =~= more + (pad + last.name + " = \""@ + last.value + "\""@));
            }
        }
        assert(other =~= shifted(one, more));
        assert(constants_lines(constants, more + pad) =~= shifted(
            constants_lines(constants, pad),
            more,
        ));
    }
}

proof fn lemma_nested_shifted(modules: Seq<ModuleView>, pad: Seq<char>, more: Seq<char>)
    ensures
        nested_lines(modules, more + pad) == shifted(nested_lines(modules, pad), more),
    decreases modules,
{
    if modules.len() > 0 {
        lemma_nested_shifted(modules.drop_last(), pad, more);
        class_is_shifted(modules.last(), pad, more);
    }
    assert(nested_lines(modules, more + pad) =~= shifted(nested_lines(modules, pad), more));
}

/// A class that stands further to the right is the same text, with that much
/// more in front of each line that is not empty.
pub proof fn class_is_shifted(module: ModuleView, pad: Seq<char>, more: Seq<char>)
    ensures
        class_lines(module, more + pad) == shifted(class_lines(module, pad), more),
    decreases module,
{
    reveal_strlit("class ");
    reveal_strlit("\"\"\"");
    reveal_strlit("pass");
    let body = pad + indent();
    assert(more + pad + indent() =~= more + body);
    lemma_constants_shifted(module.constants, body, more);
    lemma_nested_shifted(module.submodules, body, more);
    let one = header_lines(module, pad);
    let other = header_lines(module, more + pad);
    let doc = docstring(module.doc_comment);
    assert(other[0] =~= more + one[0]);
    if doc.len() != 0 {
        assert(other[1] =~= more + one[1]);
    }
    assert(other =~= shifted(one, more));
    assert(more + pad + indent() + "pass"@ =~= more + (body + "pass"@));
    assert(class_lines(module, more + pad) =~= shifted(class_lines(module, pad), more));
}

proof fn lemma_one_more(unit: Seq<char>, depth: nat)
    ensures
        repeated(unit, depth + 1) == unit + repeated(unit, depth),
    decreases depth,
{
    if depth == 0 {
        assert(repeated(unit, 0) + unit =~= unit + repeated(unit, 0));
        assert(repeated(unit, 1) == repeated(unit, 0) + unit);
    } else {
        lemma_one_more(unit, (depth - 1) as nat);
        assert(repeated(unit, depth + 1) =~= unit + repeated(unit, depth));
    }
}

/// One level deeper a class is the same text, with four spaces more in front of
/// each line that is not empty.
pub proof fn deeper_class_is_the_same_text(module: ModuleView, depth: nat)
    ensures
        class_lines(module, repeated(indent(), depth + 1)) == shifted(
            class_lines(module, repeated(indent(), depth)),
            indent(),
        ),
        indent() =~= seq![' ', ' ', ' ', ' '],
{
    reveal_strlit("    ");
    lemma_one_more(indent(), depth);
    class_is_shifted(module, repeated(indent(), depth), indent());
}

/// No class is left without a body.
pub proof fn every_class_has_a_body(module: ModuleView, pad: Seq<char>)
    ensures
        class_lines(module, pad).len() >= 2,
        class_lines(module, pad).last() == pad + indent() + "pass"@ <== !has_body(module),
{
    if module.submodules.len() > 0 {
        assert(nested_lines(module.submodules, pad + indent()).len() > 0);
    }
}

proof fn lemma_constants_take(constants: Seq<ConstantView>, pad: Seq<char>, k: int)
    requires
        0 <= k <= constants.len(),
    ensures
        constants_lines(constants.take(k), pad).len() <= constants_lines(constants, pad).len(),
        forall|j: int|
            0 <= j < constants_lines(constants.take(k), pad).len() ==> #[trigger] constants_lines(
                constants,
                pad,
            )[j] == constants_lines(constants.take(k), pad)[j],
    decreases constants.len(),
{
    if k == constants.len() {
        assert(constants.take(k) =~= constants);
    } else {
        lemma_constants_take(constants.drop_last(), pad, k);
        assert(constants.drop_last().take(k) =~= constants.take(k));
    }
}

proof fn lemma_constant_place(constants: Seq<ConstantView>, pad: Seq<char>, i: int)
    requires
        0 <= i < constants.len(),
    ensures
        ({
            let lines = constants_lines(constants, pad);
            let comments = names::lines_of(constants[i].doc_comment);
            let place = constants_lines(constants.take(i), pad).len() + comments.len();
            &&& place < lines.len()
            &&& lines[place as int] == pad + constants[i].name + " = \""@ + constants[i].value
                + "\""@
            &&& constants_lines(constants.take(i + 1), pad).len() == place + 1
            &&& forall|k: int|
                0 <= k < comments.len() ==> #[trigger] lines[place - comments.len() + k] == pad
                    + "# "@ + comments[k]
        }),
{
    let comments = names::lines_of(constants[i].doc_comment);
    let before = constants_lines(constants.take(i), pad);
    let upto = constants_lines(constants.take(i + 1), pad);
    let place = (before.len() + comments.len()) as int;
    assert(constants.take(i + 1).drop_last() =~= constants.take(i));
    assert(constants.take(i + 1).last() == constants[i]);
    assert(upto == before + constant_lines(constants[i], pad));
    lemma_constants_take(constants, pad, i + 1);
    let lines = constants_lines(constants, pad);
    assert(lines[place] == upto[place]);
    assert forall|k: int| 0 <= k < comments.len() implies #[trigger] lines[place - comments.len()
        + k] == pad + "# "@ + comments[k] by {
        assert(lines[place - comments.len() + k] == upto[place - comments.len() + k]);
        assert(upto[before.len() + k] == constant_lines(constants[i], pad)[k]);
    }
}

proof fn lemma_nested_take(modules: Seq<ModuleView>, pad: Seq<char>, k: int)
    requires
        0 <= k <= modules.len(),
    ensures
        nested_lines(modules.take(k), pad).len() <= nested_lines(modules, pad).len(),
        forall|j: int|
            0 <= j < nested_lines(modules.take(k), pad).len() ==> #[trigger] nested_lines(
                modules,
                pad,
            )[j] == nested_lines(modules.take(k), pad)[j],
    decreases modules.len(),
{
    if k == modules.len() {
        assert(modules.take(k) =~= modules);
    } else {
        lemma_nested_take(modules.drop_last(), pad, k);
        assert(modules.drop_last().take(k) =~= modules.take(k));
    }
}

proof fn lemma_nested_place(modules: Seq<ModuleView>, pad: Seq<char>, i: int)
    requires
        0 <= i < modules.len(),
    ensures
        ({
            let lines = nested_lines(modules, pad);
            let class = class_lines(modules[i], pad);
            let place = nested_lines(modules.take(i), pad).len() + 1;
            &&& place + class.len() <= lines.len()
            &&& lines[place - 1].len() == 0
            &&& lines.subrange(place as int, (place + class.len()) as int) == class
            &&& nested_lines(modules.take(i + 1), pad).len() == place + class.len()
        }),
{
    let class = class_lines(modules[i], pad);
    let before = nested_lines(modules.take(i), pad);
    let upto = nested_lines(modules.take(i + 1), pad);
    let place = (before.len() + 1) as int;
    assert(modules.take(i + 1).drop_last() =~= modules.take(i));
    assert(modules.take(i + 1).last() == modules[i]);
    assert(upto == before.push(Seq::empty()) + class);
    lemma_nested_take(modules, pad, i + 1);
    let lines = nested_lines(modules, pad);
    assert(lines[place - 1] == upto[place - 1]);
    assert(lines.subrange(place, place + class.len()) =~= class) by {
        assert forall|j: int| 0 <= j < class.len() implies #[trigger] lines.subrange(
            place,
            place + class.len(),
        )[j] == class[j] by {
            assert(lines[place + j] == upto[place + j]);
        }
    }
}

/// How many lines a class has before its constants: one, and one more if it is
/// documented.
pub open spec fn head_len(module: ModuleView) -> int {
    if docstring(module.doc_comment).len() > 0 {
        2
    } else {
        1
    }
}

/// Whether every constant stands in the line that `at` tells, in order, right
/// below its comments, the first one behind an empty line.
#[verifier::opaque]
pub open spec fn constants_in_place(
    lines: Seq<Seq<char>>,
    module: ModuleView,
    body: Seq<char>,
    at: Seq<int>,
) -> bool {
    let n = module.constants.len() as int;
    &&& at.len() == n
    &&& n > 0 ==> head_len(module) < lines.len() && lines[head_len(module)].len() == 0
    &&& forall|i: int|
        0 <= i < n ==> {
            let constant = module.constants[i];
            let comments = names::lines_of(constant.doc_comment);
            let place = #[trigger] at[i];
            &&& head_len(module) < place < lines.len()
            &&& place == comments.len() + 1 + if i == 0 {
                head_len(module)
            } else {
                at[i - 1]
            }
            &&& lines[place] == body + constant.name + " = \""@ + constant.value + "\""@
            &&& forall|k: int|
                0 <= k < comments.len() ==> #[trigger] lines[place - comments.len() + k] == body
                    + "# "@ + comments[k]
        }
    &&& forall|i: int, j: int| 0 <= i < j < n ==> #[trigger] at[i] < #[trigger] at[j]
}

/// Whether every nested class begins in the line that `nested` tells, in order,
/// each behind an empty line, the first one behind the constants.
#[verifier::opaque]
pub open spec fn classes_in_place(
    lines: Seq<Seq<char>>,
    module: ModuleView,
    body: Seq<char>,
    at: Seq<int>,
    nested: Seq<int>,
) -> bool {
    let n = module.constants.len() as int;
    let m = module.submodules.len() as int;
    &&& nested.len() == m
    &&& forall|k: int|
        0 <= k < m ==> {
            let class = class_lines(module.submodules[k], body);
            let place = #[trigger] nested[k];
            &&& head_len(module) < place && place + class.len() <= lines.len()
            &&& place == 1 + if k > 0 {
                nested[k - 1] + class_lines(module.submodules[k - 1], body).len()
            } else if n > 0 {
                at[n - 1] + 1
            } else {
                head_len(module)
            }
            &&& lines[place - 1].len() == 0
            &&& lines.subrange(place, place + class.len()) == class
        }
    &&& forall|i: int, k: int| 0 <= i < n && 0 <= k < m ==> #[trigger] at[i] < #[trigger] nested[k]
}

/// Whether `lines` are a class as it should be, `at` telling the line of each
/// constant and `nested` the first line of each nested class: the name, the
/// documentation if there is any, then every constant and then every nested
/// class. There is nothing else, except that a class without anything says so.
pub open spec fn is_layout(
    lines: Seq<Seq<char>>,
    module: ModuleView,
    pad: Seq<char>,
    at: Seq<int>,
    nested: Seq<int>,
) -> bool {
    let body = pad + "    "@;
    let doc = docstring(module.doc_comment);
    let n = module.constants.len() as int;
    let m = module.submodules.len() as int;
    &&& lines.len() >= 2
    &&& lines[0] == pad + "class "@ + module.name + ":"@
    &&& doc.len() > 0 ==> lines[1] == body + "\"\"\""@ + doc + "\"\"\""@
    &&& constants_in_place(lines, module, body, at)
    &&& classes_in_place(lines, module, body, at, nested)
    &&& m > 0 ==> lines.len() == nested[m - 1] + class_lines(
        module.submodules[m - 1],
        body,
    ).len()
    &&& m == 0 && n > 0 ==> lines.len() == at[n - 1] + 1
    &&& m == 0 && n == 0 ==> lines.len() == 2
    &&& m == 0 && n == 0 && doc.len() == 0 ==> lines[1] == body + "pass"@
}

/// The line of each constant.
spec fn constant_places(module: ModuleView, pad: Seq<char>) -> Seq<int> {
    let head = header_lines(module, pad).len();
    let body = pad + indent();
    Seq::new(
        module.constants.len(),
        |i: int|
            (head + 1 + constants_lines(module.constants.take(i), body).len() + names::lines_of(
                module.constants[i].doc_comment,
            ).len()) as int,
    )
}

/// The first line of each nested class.
spec fn nested_places(module: ModuleView, pad: Seq<char>) -> Seq<int> {
    let head = header_lines(module, pad).len();
    let body = pad + indent();
    let front = head + if module.constants.len() == 0 {
        0
    } else {
        1 + constants_lines(module.constants, body).len()
    };
    Seq::new(
        module.submodules.len(),
        |k: int| (front + nested_lines(module.submodules.take(k), body).len() + 1) as int,
    )
}

proof fn lemma_constant_places(module: ModuleView, pad: Seq<char>, i: int)
    requires
        0 <= i < module.constants.len(),
    ensures
        ({
            let at = constant_places(module, pad);
            let head = header_lines(module, pad).len() as int;
            let body = pad + indent();
            let lines = class_lines(module, pad);
            let constant = module.constants[i];
            let comments = names::lines_of(constant.doc_comment);
            &&& head < at[i] <= head + constants_lines(module.constants, body).len() < lines.len()
            &&& at[i] == comments.len() + 1 + if i == 0 {
                head
            } else {
                at[i - 1]
            }
            &&& i == module.constants.len() - 1 ==> at[i] == head + constants_lines(
                module.constants,
                body,
            ).len()
            &&& lines[at[i]] == body + constant.name + " = \""@ + constant.value + "\""@
            &&& forall|k: int|
                0 <= k < comments.len() ==> #[trigger] lines[at[i] - comments.len() + k] == body
                    + "# "@ + comments[k]
        }),
{
    let at = constant_places(module, pad);
    let head = header_lines(module, pad).len() as int;
    let body = pad + indent();
    let lines = class_lines(module, pad);
    let written = constants_lines(module.constants, body);
    let comments = names::lines_of(module.constants[i].doc_comment);
    lemma_constant_place(module.constants, body, i);
    if i > 0 {
        lemma_constant_place(module.constants, body, i - 1);
    } else {
        assert(module.constants.take(0) =~= Seq::empty());
    }
    if i == module.constants.len() - 1 {
        assert(module.constants.take(i + 1) =~= module.constants);
    }
    assert(forall|j: int| 0 <= j < written.len() ==> lines[head + 1 + j] == #[trigger] written[j]);
    let place = at[i] - head - 1;
    assert(lines[at[i]] == written[place]);
    assert forall|k: int| 0 <= k < comments.len() implies #[trigger] lines[at[i] - comments.len()
        + k] == body + "# "@ + comments[k] by {
        assert(written[place - comments.len() + k] == body + "# "@ + comments[k]);
    }
}

proof fn lemma_constant_places_grow(module: ModuleView, pad: Seq<char>, i: int, j: int)
    requires
        0 <= i < j < module.constants.len(),
    ensures
        constant_places(module, pad)[i] < constant_places(module, pad)[j],
    decreases j - i,
{
    lemma_constant_places(module, pad, j);
    if i < j - 1 {
        lemma_constant_places_grow(module, pad, i, j - 1);
    }
}

proof fn lemma_nested_places(module: ModuleView, pad: Seq<char>, k: int)
    requires
        0 <= k < module.submodules.len(),
    ensures
        ({
            let nested = nested_places(module, pad);
            let head = header_lines(module, pad).len() as int;
            let body = pad + indent();
            let lines = class_lines(module, pad);
            let class = class_lines(module.submodules[k], body);
            let front = head + if module.constants.len() == 0 {
                0
            } else {
                1 + constants_lines(module.constants, body).len()
            };
            &&& front < nested[k] && nested[k] + class.len() <= lines.len()
            &&& nested[k] == 1 + if k > 0 {
                nested[k - 1] + class_lines(module.submodules[k - 1], body).len()
            } else {
                front
            }
            &&& lines[nested[k] - 1].len() == 0
            &&& lines.subrange(nested[k], nested[k] + class.len()) == class
            &&& k == module.submodules.len() - 1 ==> lines.len() == nested[k] + class.len()
        }),
{
    let nested = nested_places(module, pad);
    let head = header_lines(module, pad).len() as int;
    let body = pad + indent();
    let lines = class_lines(module, pad);
    let class = class_lines(module.submodules[k], body);
    let written = nested_lines(module.submodules, body);
    let front = head + if module.constants.len() == 0 {
        0
    } else {
        1 + constants_lines(module.constants, body).len()
    };
    lemma_nested_place(module.submodules, body, k);
    if k > 0 {
        lemma_nested_place(module.submodules, body, k - 1);
    } else {
        assert(module.submodules.take(0) =~= Seq::empty());
    }
    if k == module.submodules.len() - 1 {
        assert(module.submodules.take(k + 1) =~= module.submodules);
    }
    assert(lines.len() == front + written.len());
    assert(forall|j: int| 0 <= j < written.len() ==> lines[front + j] == #[trigger] written[j]);
    let place = nested[k] - front;
    assert(lines[nested[k] - 1] == written[place - 1]);
    assert(lines.subrange(nested[k], nested[k] + class.len()) =~= class) by {
        assert forall|j: int| 0 <= j < class.len() implies #[trigger] lines.subrange(
            nested[k],
            nested[k] + class.len(),
        )[j] == class[j] by {
            assert(written.subrange(place, place + class.len())[j] == written[place + j]);
        }
    }
}

proof fn lemma_constants_in_place(module: ModuleView, pad: Seq<char>)
    ensures
        constants_in_place(
            class_lines(module, pad),
            module,
            pad + indent(),
            constant_places(module, pad),
        ),
{
    reveal(constants_in_place);
    let at = constant_places(module, pad);
    let lines = class_lines(module, pad);
    let n = module.constants.len() as int;
    let body = pad + indent();
    assert(header_lines(module, pad).len() == head_len(module));
    if n > 0 {
        lemma_constant_places(module, pad, 0);
    }
    assert forall|i: int| 0 <= i < n implies {
        let constant = module.constants[i];
        let comments = names::lines_of(constant.doc_comment);
        let place = #[trigger] at[i];
        &&& head_len(module) < place < lines.len()
        &&& place == comments.len() + 1 + if i == 0 {
            head_len(module)
        } else {
            at[i - 1]
        }
        &&& lines[place] == body + constant.name + " = \""@ + constant.value + "\""@
        &&& forall|k: int|
            0 <= k < comments.len() ==> #[trigger] lines[place - comments.len() + k] == body
                + "# "@ + comments[k]
    } by {
        lemma_constant_places(module, pad, i);
    }
    assert forall|i: int, j: int| 0 <= i < j < n implies #[trigger] at[i] < #[trigger] at[j] by {
        lemma_constant_places_grow(module, pad, i, j);
    }
}

proof fn lemma_classes_in_place(module: ModuleView, pad: Seq<char>)
    ensures
        classes_in_place(
            class_lines(module, pad),
            module,
            pad + indent(),
            constant_places(module, pad),
            nested_places(module, pad),
        ),
{
    reveal(classes_in_place);
    let at = constant_places(module, pad);
    let nested = nested_places(module, pad);
    let lines = class_lines(module, pad);
    let n = module.constants.len() as int;
    let m = module.submodules.len() as int;
    let body = pad + indent();
    assert(header_lines(module, pad).len() == head_len(module));
    if n > 0 {
        lemma_constant_places(module, pad, n - 1);
    }
    assert forall|k: int| 0 <= k < m implies {
        let class = class_lines(module.submodules[k], body);
        let place = #[trigger] nested[k];
        &&& head_len(module) < place && place + class.len() <= lines.len()
        &&& place == 1 + if k > 0 {
            nested[k - 1] + class_lines(module.submodules[k - 1], body).len()
        } else if n > 0 {
            at[n - 1] + 1
        } else {
            head_len(module)
        }
        &&& lines[place - 1].len() == 0
        &&& lines.subrange(place, place + class.len()) == class
    } by {
        lemma_nested_places(module, pad, k);
    }
    assert forall|i: int, k: int| 0 <= i < n && 0 <= k < m implies #[trigger] at[i]
        < #[trigger] nested[k] by {
        lemma_constant_places(module, pad, i);
        lemma_nested_places(module, pad, k);
    }
}

proof fn lemma_head_and_end(module: ModuleView, pad: Seq<char>)
    ensures
        ({
            let lines = class_lines(module, pad);
            let body = pad + "    "@;
            let at = constant_places(module, pad);
            let nested = nested_places(module, pad);
            let doc = docstring(module.doc_comment);
            let n = module.constants.len() as int;
            let m = module.submodules.len() as int;
            &&& lines.len() >= 2
            &&& lines[0] == pad + "class "@ + module.name + ":"@
            &&& doc.len() > 0 ==> lines[1] == body + "\"\"\""@ + doc + "\"\"\""@
            &&& m > 0 ==> lines.len() == nested[m - 1] + class_lines(
                module.submodules[m - 1],
                body,
            ).len()
            &&& m == 0 && n > 0 ==> lines.len() == at[n - 1] + 1
            &&& m == 0 && n == 0 ==> lines.len() == 2
            &&& m == 0 && n == 0 && doc.len() == 0 ==> lines[1] == body + "pass"@
        }),
{
    let lines = class_lines(module, pad);
    let header = header_lines(module, pad);
    let n = module.constants.len() as int;
    let m = module.submodules.len() as int;
    every_class_has_a_body(module, pad);
    assert(lines[0] == header[0]);
    if docstring(module.doc_comment).len() > 0 {
        assert(lines[1] == header[1]);
    }
    if m > 0 {
        lemma_nested_places(module, pad, m - 1);
    } else {
        assert(nested_lines(module.submodules, pad + indent()).len() == 0);
        if n > 0 {
            lemma_constant_places(module, pad, n - 1);
        }
    }
}

/// A module is written whole: its class holds every constant with its name and
/// its value, in order and each below its own comments, before every nested
/// module as a class of its own, in order too, whether or not it is documented.
pub proof fn modules_are_written_whole(module: ModuleView, pad: Seq<char>)
    ensures
        exists|at: Seq<int>, nested: Seq<int>| #[trigger]
            is_layout(class_lines(module, pad), module, pad, at, nested),
{
    lemma_head_and_end(module, pad);
    lemma_constants_in_place(module, pad);
    lemma_classes_in_place(module, pad);
    assert(is_layout(
        class_lines(module, pad),
        module,
        pad,
        constant_places(module, pad),
        nested_places(module, pad),
    ));
}

/// Every constant of a module has its line in the module's class.
pub proof fn constants_are_written(module: ModuleView, pad: Seq<char>, i: int)
    requires
        0 <= i < module.constants.len(),
    ensures
        exists|k: int|
            0 < k < class_lines(module, pad).len() && #[trigger] class_lines(module, pad)[k] == pad
                + "    "@ + module.constants[i].name + " = \""@ + module.constants[i].value
                + "\""@,
{
    lemma_constant_places(module, pad, i);
    let k = constant_places(module, pad)[i];
    assert(class_lines(module, pad)[k] == pad + "    "@ + module.constants[i].name + " = \""@
        + module.constants[i].value + "\""@);
}

/// The documentation of a class is the first line of the module's, without the
/// spaces around it.
pub proof fn classes_have_the_first_line_of_documentation(first: Seq<char>, rest: Seq<char>)
    requires
        !first.contains('\n'),
        first.len() > 0,
        first.last() != '\r',
    ensures
        docstring(Seq::empty()).len() == 0,
        docstring(first) == text::trimmed(first),
        docstring(first + seq!['\n'] + rest) == text::trimmed(first),
{
    names::lines_are_split_at_line_feeds(first, rest);
}

/// The classes of a file follow each other in order, with two empty lines
/// between them.
pub proof fn files_hold_every_class(modules: Seq<ModuleView>, module: ModuleView)
    ensures
        file_lines(Seq::empty()).len() == 0,
        file_lines(seq![module]) == class_lines(module, Seq::empty()),
        modules.len() > 0 ==> file_lines(modules.push(module)) == file_lines(modules) + seq![
            Seq::<char>::empty(),
            Seq::<char>::empty(),
        ] + class_lines(module, Seq::empty()),
        modules.len() > 0 ==> classes_text(modules) == names::joined(file_lines(modules)) + seq![
            '\n',
        ],
        classes_text(Seq::empty()).len() == 0,
{
    if modules.len() > 0 {
        every_class_has_a_body(modules.last(), Seq::empty());
        assert(file_lines(modules).len() > 0);
    }
    names::lines_are_joined_in_order(file_lines(modules), Seq::empty());
    assert(names::joined(file_lines(modules)) + seq!['\n'] + Seq::<char>::empty()
        =~= names::joined(file_lines(modules)) + seq!['\n']);
    assert(file_lines(Seq::<ModuleView>::empty()).push(Seq::<char>::empty()) =~= seq![
        Seq::<char>::empty(),
    ]);
    let more = modules.push(module);
    assert(more.drop_last() =~= modules);
    if modules.len() > 0 {
        assert(file_lines(more) =~= file_lines(modules) + seq![
            Seq::<char>::empty(),
            Seq::<char>::empty(),
        ] + class_lines(module, Seq::empty()));
    }
}

/// A summary tells of each module its name, how many constants it has and
/// whether its names are generated, and then the same of its nested modules in
/// order, two spaces deeper.
pub proof fn summaries_tell_every_module(
    module: ModuleView,
    more: Seq<ModuleView>,
    pad: Seq<char>,
)
    ensures
        summary_lines(module, pad).len() > 0,
        summary_lines(module, pad)[0] == "  "@ + pad + "- "@ + module.name + ": "@
            + text::decimal_digits(module.constants.len()) + " constants"@ + (
        if module.is_macro_generated {
            " (macro-generated)"@
        } else {
            Seq::empty()
        }),
        summary_lines(module, pad).skip(1) == summaries(module.submodules, pad + "  "@),
        summaries(Seq::empty(), pad).len() == 0,
        summaries(more.push(module), pad) == summaries(more, pad) + summary_lines(module, pad),
{
    assert(more.push(module).drop_last() =~= more);
    assert(summary_lines(module, pad).skip(1) =~= summaries(module.submodules, pad + "  "@));
}

} // verus!
