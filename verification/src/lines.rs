//! Reading the DOT text back: its lines, and which of them stand for a
//! state and which for a transition.
//!
//! A reader of the text tells the lines apart by how they begin. After four
//! spaces and a number, a line that declares a state goes on with a space,
//! and a line for a transition goes on with `->`. Whatever a name holds, it
//! comes later in its line, so it cannot make one kind of line look like the
//! other. A name that holds a line break, though, splits its line in two.
use crate::dot::{
    decimal, dot_text, edge_lines, edge_text, graph_lines, line, node_text, state_lines,
};
use crate::export::transition_count;
use crate::graph::StateView;
use vstd::prelude::*;

verus! {

/// `text` holds no line break.
pub open spec fn unbroken(text: Seq<char>) -> bool {
    forall|i: int| 0 <= i < text.len() ==> text[i] != '\n'
}

/// `text` is made of whole lines: it is empty or ends with a line break.
pub open spec fn whole_lines(text: Seq<char>) -> bool {
    text.len() == 0 || text.last() == '\n'
}

/// The number of characters of `text` before its first line break, or in
/// all of it where it holds none.
pub open spec fn line_len(text: Seq<char>) -> nat
    decreases text.len(),
{
    if text.len() == 0 || text[0] == '\n' {
        0
    } else {
        1 + line_len(text.drop_first())
    }
}

/// The lines of `text`, each without the line break that ends it. Text
/// after the last line break, if there is any, is a line too.
pub open spec fn lines_of(text: Seq<char>) -> Seq<Seq<char>>
    decreases text.len(),
{
    if text.len() == 0 {
        Seq::empty()
    } else if line_len(text) >= text.len() {
        seq![text]
    } else {
        seq![text.take(line_len(text) as int)] + lines_of(text.skip(line_len(text) as int + 1))
    }
}

/// The first line ends at a line break or with the text, and holds no line
/// break.
proof fn lemma_line_len_bound(text: Seq<char>)
    ensures
        line_len(text) <= text.len(),
        line_len(text) < text.len() ==> text[line_len(text) as int] == '\n',
        unbroken(text.take(line_len(text) as int)),
    decreases text.len(),
{
    if text.len() == 0 || text[0] == '\n' {
    } else {
        let rest = text.drop_first();
        lemma_line_len_bound(rest);
        let n = line_len(text) as int;
        assert forall|i: int| 0 <= i < n implies text.take(n)[i] != '\n' by {
            if i > 0 {
                assert(text[i] == rest.take(line_len(rest) as int)[i - 1]);
            }
        }
    }
}

/// The first line of `line + "\n" + rest` is `line`, where `line` holds no
/// line break.
proof fn lemma_line_len_of_line(line: Seq<char>, rest: Seq<char>)
    requires
        unbroken(line),
    ensures
        line_len(line + seq!['\n'] + rest) == line.len(),
    decreases line.len(),
{
    let text = line + seq!['\n'] + rest;
    if line.len() > 0 {
        assert(text.drop_first() =~= line.drop_first() + seq!['\n'] + rest);
        lemma_line_len_of_line(line.drop_first(), rest);
    }
}

/// A line followed by more text: the lines are that line, then the lines of
/// the rest.
pub proof fn lemma_lines_of_line(line: Seq<char>, rest: Seq<char>)
    requires
        unbroken(line),
    ensures
        lines_of(line + seq!['\n'] + rest) == seq![line] + lines_of(rest),
{
    let text = line + seq!['\n'] + rest;
    lemma_line_len_of_line(line, rest);
    assert(text.take(line.len() as int) =~= line);
    assert(text.skip(line.len() as int + 1) =~= rest);
}

/// Whole lines followed by more text: the lines are those of the first
/// part, then those of the second.
pub proof fn lemma_lines_of_concat(first: Seq<char>, second: Seq<char>)
    requires
        whole_lines(first),
    ensures
        lines_of(first + second) == lines_of(first) + lines_of(second),
    decreases first.len(),
{
    if first.len() > 0 {
        lemma_line_len_bound(first);
        let n = line_len(first) as int;
        if n >= first.len() {
            // then the first part holds no line break, but it ends with one
            assert(first.take(n) =~= first);
        }
        let line = first.take(n);
        let tail = first.skip(n + 1);
        assert(first + second =~= line + seq!['\n'] + (tail + second));
        lemma_lines_of_line(line, tail);
        lemma_lines_of_line(line, tail + second);
        lemma_lines_of_concat(tail, second);
        assert(seq![line] + (lines_of(tail) + lines_of(second)) =~= (seq![line] + lines_of(tail))
            + lines_of(second));
    }
}

/// `c` is a decimal digit.
pub open spec fn is_digit(c: char) -> bool {
    c == '0' || c == '1' || c == '2' || c == '3' || c == '4' || c == '5' || c == '6' || c == '7'
        || c == '8' || c == '9'
}

/// The number of digits that `text` holds in a row from position `from`.
pub open spec fn digits_from(text: Seq<char>, from: int) -> nat
    decreases text.len() - from,
{
    if 0 <= from < text.len() && is_digit(text[from]) {
        1 + digits_from(text, from + 1)
    } else {
        0
    }
}

/// What a line of the text stands for.
pub enum LineKind {
    /// The declaration of a state.
    Node,
    /// A transition.
    Edge,
    /// Neither: the opening or the closing line, or none that the export
    /// writes.
    Other,
}

/// What `line` stands for, told by how it begins: four spaces and a number,
/// then a space for a state and `->` for a transition.
pub open spec fn kind_of(line: Seq<char>) -> LineKind {
    let after = 4 + digits_from(line, 4) as int;
    if after < line.len() && line[0] == ' ' && line[1] == ' ' && line[2] == ' ' && line[3] == ' '
        && digits_from(line, 4) > 0 {
        if line[after] == ' ' {
            LineKind::Node
        } else if line[after] == '-' && after + 1 < line.len() && line[after + 1] == '>' {
            LineKind::Edge
        } else {
            LineKind::Other
        }
    } else {
        LineKind::Other
    }
}

/// The number of `lines` that stand for `kind`.
pub open spec fn count_kind(lines: Seq<Seq<char>>, kind: LineKind) -> nat
    decreases lines.len(),
{
    if lines.len() == 0 {
        0
    } else {
        count_kind(lines.drop_last(), kind) + if kind_of(lines.last()) == kind {
            1nat
        } else {
            0nat
        }
    }
}

/// Counting over two runs of lines is counting over each and adding up.
pub proof fn lemma_count_concat(first: Seq<Seq<char>>, second: Seq<Seq<char>>, kind: LineKind)
    ensures
        count_kind(first + second, kind) == count_kind(first, kind) + count_kind(second, kind),
    decreases second.len(),
{
    if second.len() > 0 {
        assert((first + second).drop_last() =~= first + second.drop_last());
        lemma_count_concat(first, second.drop_last(), kind);
    }
}

/// A single line counts once for its kind and not at all for another.
proof fn lemma_count_one(line: Seq<char>, kind: LineKind)
    ensures
        count_kind(seq![line], kind) == if kind_of(line) == kind {
            1nat
        } else {
            0nat
        },
{
    reveal_with_fuel(count_kind, 2);
}

/// A number in decimal is one digit or more, and nothing but digits.
pub proof fn lemma_decimal_is_digits(n: nat)
    ensures
        decimal(n).len() >= 1,
        forall|i: int| 0 <= i < decimal(n).len() ==> is_digit(#[trigger] decimal(n)[i]),
    decreases n,
{
    if n >= 10 {
        lemma_decimal_is_digits(n / 10);
    }
}

/// Digits between a prefix and text that starts with no digit: all of them
/// are counted from the end of the prefix, and no more.
proof fn lemma_digits_from(prefix: Seq<char>, digits: Seq<char>, rest: Seq<char>)
    requires
        forall|i: int| 0 <= i < digits.len() ==> is_digit(#[trigger] digits[i]),
        rest.len() == 0 || !is_digit(rest[0]),
    ensures
        digits_from(prefix + digits + rest, prefix.len() as int) == digits.len(),
    decreases digits.len(),
{
    let text = prefix + digits + rest;
    if digits.len() > 0 {
        assert(text =~= prefix.push(digits[0]) + digits.drop_first() + rest);
        lemma_digits_from(prefix.push(digits[0]), digits.drop_first(), rest);
    }
}

/// Text put together from two parts without a line break holds none.
proof fn lemma_unbroken_concat(first: Seq<char>, second: Seq<char>)
    requires
        unbroken(first),
        unbroken(second),
    ensures
        unbroken(first + second),
{
}

/// The declaration of a state is read as one, whatever its name, and holds
/// no line break unless the name does.
pub proof fn lemma_node_text_kind(id: nat, name: Seq<char>)
    ensures
        kind_of(node_text(id, name)) == LineKind::Node,
        unbroken(name) ==> unbroken(node_text(id, name)),
{
    reveal_strlit("    ");
    reveal_strlit(" [label=\"");
    reveal_strlit("\"]");
    lemma_decimal_is_digits(id);
    let indent = "    "@;
    let number = decimal(id);
    let rest = " [label=\""@ + name + "\"]"@;
    let text = node_text(id, name);
    assert(text =~= indent + number + rest);
    lemma_digits_from(indent, number, rest);
    if unbroken(name) {
        lemma_unbroken_concat(indent, number);
        lemma_unbroken_concat(indent + number, " [label=\""@);
        lemma_unbroken_concat(indent + number + " [label=\""@, name);
        lemma_unbroken_concat(indent + number + " [label=\""@ + name, "\"]"@);
    }
}

/// A transition is read as one, whatever the name of its state, and holds
/// no line break unless the name does.
pub proof fn lemma_edge_text_kind(id: nat, target: nat, name: Seq<char>)
    ensures
        kind_of(edge_text(id, target, name)) == LineKind::Edge,
        unbroken(name) ==> unbroken(edge_text(id, target, name)),
{
    reveal_strlit("    ");
    reveal_strlit("->");
    reveal_strlit(" [label=\"");
    reveal_strlit("\"]");
    lemma_decimal_is_digits(id);
    lemma_decimal_is_digits(target);
    let indent = "    "@;
    let number = decimal(id);
    let rest = "->"@ + decimal(target) + " [label=\""@ + name + "\"]"@;
    let text = edge_text(id, target, name);
    assert(text =~= indent + number + rest);
    lemma_digits_from(indent, number, rest);
    if unbroken(name) {
        lemma_unbroken_concat(indent, number);
        lemma_unbroken_concat(indent + number, "->"@);
        lemma_unbroken_concat(indent + number + "->"@, decimal(target));
        lemma_unbroken_concat(indent + number + "->"@ + decimal(target), " [label=\""@);
        lemma_unbroken_concat(
            indent + number + "->"@ + decimal(target) + " [label=\""@,
            name,
        );
        lemma_unbroken_concat(
            indent + number + "->"@ + decimal(target) + " [label=\""@ + name,
            "\"]"@,
        );
    }
}

/// The lines of one line are that line.
proof fn lemma_lines_of_one(text: Seq<char>)
    requires
        unbroken(text),
    ensures
        lines_of(line(text)) == seq![text],
        whole_lines(line(text)),
{
    lemma_lines_of_line(text, Seq::empty());
    assert(line(text) =~= text + seq!['\n'] + Seq::<char>::empty());
}

/// Whole lines with one more line: as many lines of each kind as before,
/// and one more of the kind of the line added.
proof fn lemma_count_with_line(before: Seq<char>, text: Seq<char>, kind: LineKind)
    requires
        whole_lines(before),
        unbroken(text),
    ensures
        whole_lines(before + line(text)),
        count_kind(lines_of(before + line(text)), kind) == count_kind(lines_of(before), kind)
            + if kind_of(text) == kind {
            1nat
        } else {
            0nat
        },
{
    lemma_lines_of_one(text);
    lemma_lines_of_concat(before, line(text));
    lemma_count_concat(lines_of(before), seq![text], kind);
    lemma_count_one(text, kind);
}

/// The lines for the first `count` exits of a state are that many
/// transitions and no state.
proof fn lemma_edge_lines_counts<C, A>(state: StateView<C, A>, count: nat)
    requires
        unbroken(state.name),
    ensures
        whole_lines(edge_lines(state, count)),
        count_kind(lines_of(edge_lines(state, count)), LineKind::Edge) == count,
        count_kind(lines_of(edge_lines(state, count)), LineKind::Node) == 0,
    decreases count,
{
    if count > 0 {
        let before = edge_lines(state, (count - 1) as nat);
        let text = edge_text(state.id, state.exits[count - 1].target, state.name);
        lemma_edge_lines_counts(state, (count - 1) as nat);
        lemma_edge_text_kind(state.id, state.exits[count - 1].target, state.name);
        lemma_count_with_line(before, text, LineKind::Edge);
        lemma_count_with_line(before, text, LineKind::Node);
    }
}

/// The lines for a state are one state and as many transitions as it has
/// exits.
proof fn lemma_state_lines_counts<C, A>(state: StateView<C, A>)
    requires
        unbroken(state.name),
    ensures
        whole_lines(state_lines(state)),
        count_kind(lines_of(state_lines(state)), LineKind::Node) == 1,
        count_kind(lines_of(state_lines(state)), LineKind::Edge) == state.exits.len(),
{
    let head = node_text(state.id, state.name);
    let exits = edge_lines(state, state.exits.len());
    lemma_node_text_kind(state.id, state.name);
    lemma_edge_lines_counts(state, state.exits.len());
    lemma_lines_of_one(head);
    lemma_lines_of_concat(line(head), exits);
    lemma_count_concat(seq![head], lines_of(exits), LineKind::Node);
    lemma_count_concat(seq![head], lines_of(exits), LineKind::Edge);
    lemma_count_one(head, LineKind::Node);
    lemma_count_one(head, LineKind::Edge);
}

/// No name in `graph` holds a line break.
pub open spec fn names_unbroken<C, A>(graph: Seq<StateView<C, A>>) -> bool {
    forall|i: int| 0 <= i < graph.len() ==> unbroken(#[trigger] graph[i].name)
}

/// The lines for the first `count` states are that many states and as many
/// transitions as those states have exits.
proof fn lemma_graph_lines_counts<C, A>(graph: Seq<StateView<C, A>>, count: nat)
    requires
        names_unbroken(graph),
        count <= graph.len(),
    ensures
        whole_lines(graph_lines(graph, count)),
        count_kind(lines_of(graph_lines(graph, count)), LineKind::Node) == count,
        count_kind(lines_of(graph_lines(graph, count)), LineKind::Edge) == transition_count(
            graph.take(count as int),
        ),
    decreases count,
{
    if count > 0 {
        let before = graph_lines(graph, (count - 1) as nat);
        let state = graph[count - 1];
        let block = state_lines(state);
        lemma_graph_lines_counts(graph, (count - 1) as nat);
        lemma_state_lines_counts(state);
        lemma_lines_of_concat(before, block);
        lemma_count_concat(lines_of(before), lines_of(block), LineKind::Node);
        lemma_count_concat(lines_of(before), lines_of(block), LineKind::Edge);
        assert(graph.take(count as int).drop_last() =~= graph.take(count - 1));
    }
}

/// The text can be read back. Of the lines of the text for `graph`, as many
/// stand for a state as the graph has states, and as many stand for a
/// transition as it has transitions. This holds where no name holds a line
/// break; such a name would split its line.
pub proof fn lemma_dot_text_counts<C, A>(graph: Seq<StateView<C, A>>)
    requires
        names_unbroken(graph),
    ensures
        count_kind(lines_of(dot_text(graph)), LineKind::Node) == graph.len(),
        count_kind(lines_of(dot_text(graph)), LineKind::Edge) == transition_count(graph),
{
    reveal_strlit("digraph state_graph {");
    reveal_strlit("}");
    let opening = "digraph state_graph {"@;
    let closing = "}"@;
    let body = graph_lines(graph, graph.len());
    lemma_graph_lines_counts(graph, graph.len());
    assert(graph.take(graph.len() as int) =~= graph);
    lemma_lines_of_one(opening);
    lemma_lines_of_concat(line(opening), body);
    lemma_count_one(opening, LineKind::Node);
    lemma_count_one(opening, LineKind::Edge);
    lemma_count_concat(seq![opening], lines_of(body), LineKind::Node);
    lemma_count_concat(seq![opening], lines_of(body), LineKind::Edge);
    lemma_count_with_line(line(opening) + body, closing, LineKind::Node);
    lemma_count_with_line(line(opening) + body, closing, LineKind::Edge);
}

} // verus!
