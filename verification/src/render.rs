//! Textual rendering of facts in the downstream engine's input
//! format: facts grouped per node, nodes in label order, and within
//! each node the relations in the fixed sequence access, invalidate,
//! clear, subset, closed by a `goto` line.

use vstd::prelude::*;

use crate::ast::{names_view, Name};
use crate::facts::{facts_view, Facts, FactsView, Node};
use crate::strutil::push_char;

verus! {

// ---------------------------------------------------------------------
// Label order
// ---------------------------------------------------------------------

/// Strict lexicographic order on labels, by character code.
pub open spec fn label_lt(a: Seq<char>, b: Seq<char>) -> bool
    decreases a.len(),
{
    if b.len() == 0 {
        false
    } else if a.len() == 0 {
        true
    } else if a[0] != b[0] {
        (a[0] as int) < (b[0] as int)
    } else {
        label_lt(a.skip(1), b.skip(1))
    }
}

/// `q` with `x` inserted at its ordered position; a label already
/// present is not inserted again.
pub open spec fn insert_label(q: Seq<Seq<char>>, x: Seq<char>) -> Seq<Seq<char>>
    decreases q.len(),
{
    if q.len() == 0 {
        seq![x]
    } else if x == q[0] {
        q
    } else if label_lt(x, q[0]) {
        seq![x] + q
    } else {
        seq![q[0]] + insert_label(q.skip(1), x)
    }
}

/// The node labels of the first `n` edges inserted into `q`, each
/// edge contributing its source and then its target.
pub open spec fn insert_edge_nodes(
    q: Seq<Seq<char>>,
    edges: Seq<(Seq<char>, Seq<char>)>,
    n: int,
) -> Seq<Seq<char>>
    decreases n,
{
    if n <= 0 {
        q
    } else {
        insert_label(
            insert_label(insert_edge_nodes(q, edges, n - 1), edges[n - 1].0),
            edges[n - 1].1,
        )
    }
}

/// The node labels of the first `n` origin facts inserted into `q`.
pub open spec fn insert_fact_nodes(
    q: Seq<Seq<char>>,
    rel: Seq<(Seq<char>, Seq<char>)>,
    n: int,
) -> Seq<Seq<char>>
    decreases n,
{
    if n <= 0 {
        q
    } else {
        insert_label(insert_fact_nodes(q, rel, n - 1), rel[n - 1].1)
    }
}

/// The node labels of the first `n` subset facts inserted into `q`.
pub open spec fn insert_subset_nodes(
    q: Seq<Seq<char>>,
    rel: Seq<(Seq<char>, Seq<char>, Seq<char>)>,
    n: int,
) -> Seq<Seq<char>>
    decreases n,
{
    if n <= 0 {
        q
    } else {
        insert_label(insert_subset_nodes(q, rel, n - 1), rel[n - 1].2)
    }
}

/// Every node label mentioned by an edge or a fact, in label order:
/// edge endpoints first, then the nodes of the four relations, each
/// inserted at its ordered place.
pub open spec fn ordered_nodes(fv: FactsView) -> Seq<Seq<char>> {
    let q0 = insert_edge_nodes(Seq::empty(), fv.cfg_edge, fv.cfg_edge.len() as int);
    let q1 = insert_fact_nodes(q0, fv.access_origin, fv.access_origin.len() as int);
    let q2 = insert_fact_nodes(q1, fv.invalidate_origin, fv.invalidate_origin.len() as int);
    let q3 = insert_fact_nodes(q2, fv.clear_origin, fv.clear_origin.len() as int);
    insert_subset_nodes(q3, fv.introduce_subset, fv.introduce_subset.len() as int)
}

// ---------------------------------------------------------------------
// Pieces of the rendered text
// ---------------------------------------------------------------------

/// A character as it appears inside a quoted node text: quotes and
/// backslashes are escaped, and so are line breaks and tabs.
pub open spec fn escaped_char(c: char) -> Seq<char> {
    if c == '"' {
        seq!['\\', '"']
    } else if c == '\\' {
        seq!['\\', '\\']
    } else if c == '\n' {
        seq!['\\', 'n']
    } else if c == '\r' {
        seq!['\\', 'r']
    } else if c == '\t' {
        seq!['\\', 't']
    } else {
        seq![c]
    }
}

/// The first `n` characters of `s`, escaped.
pub open spec fn escaped(s: Seq<char>, n: int) -> Seq<char>
    decreases n,
{
    if n <= 0 {
        Seq::empty()
    } else {
        escaped(s, n - 1) + escaped_char(s[n - 1])
    }
}

/// The text recorded for `node`: the first matching `node_text`
/// entry, if any.
pub open spec fn text_of(texts: Seq<(Seq<char>, Seq<char>)>, node: Seq<char>) -> Option<Seq<char>>
    decreases texts.len(),
{
    if texts.len() == 0 {
        None
    } else if texts[0].1 == node {
        Some(texts[0].0)
    } else {
        text_of(texts.skip(1), node)
    }
}

/// The lines for the first `n` facts of one binary relation at
/// `node`: one `\t name(origin) \n` line per matching fact, in order.
pub open spec fn fact_lines(
    rel: Seq<(Seq<char>, Seq<char>)>,
    node: Seq<char>,
    name: Seq<char>,
    n: int,
) -> Seq<char>
    decreases n,
{
    if n <= 0 {
        Seq::empty()
    } else {
        fact_lines(rel, node, name, n - 1) + if rel[n - 1].1 == node {
            seq!['\t'] + name + seq!['('] + rel[n - 1].0 + seq![')', '\n']
        } else {
            Seq::empty()
        }
    }
}

/// The lines for the first `n` subset facts at `node`.
pub open spec fn subset_lines(
    rel: Seq<(Seq<char>, Seq<char>, Seq<char>)>,
    node: Seq<char>,
    n: int,
) -> Seq<char>
    decreases n,
{
    if n <= 0 {
        Seq::empty()
    } else {
        subset_lines(rel, node, n - 1) + if rel[n - 1].2 == node {
            seq!['\t'] + "introduce_subset("@ + rel[n - 1].0 + ", "@ + rel[n - 1].1 + seq![
                ')',
                '\n',
            ]
        } else {
            Seq::empty()
        }
    }
}

/// The successors listed on the `goto` line of `node`: one ` label`
/// per edge leaving the node, among the first `n` edges, in order.
pub open spec fn goto_targets(
    edges: Seq<(Seq<char>, Seq<char>)>,
    node: Seq<char>,
    n: int,
) -> Seq<char>
    decreases n,
{
    if n <= 0 {
        Seq::empty()
    } else {
        goto_targets(edges, node, n - 1) + if edges[n - 1].0 == node {
            seq![' '] + edges[n - 1].1
        } else {
            Seq::empty()
        }
    }
}

/// The rendered section of one node: a header with the node's quoted
/// text (`(pass)` when none is recorded), the fact lines in the order
/// access, invalidate, clear, subset, and the `goto` line.
pub open spec fn node_section(fv: FactsView, node: Seq<char>) -> Seq<char> {
    let text = match text_of(fv.node_text, node) {
        Some(t) => t,
        None => "(pass)"@,
    };
    node + ": \""@ + escaped(text, text.len() as int) + "\" {\n"@ + fact_lines(
        fv.access_origin,
        node,
        "access_origin"@,
        fv.access_origin.len() as int,
    ) + fact_lines(
        fv.invalidate_origin,
        node,
        "invalidate_origin"@,
        fv.invalidate_origin.len() as int,
    ) + fact_lines(fv.clear_origin, node, "clear_origin"@, fv.clear_origin.len() as int)
        + subset_lines(fv.introduce_subset, node, fv.introduce_subset.len() as int) + "\tgoto"@
        + goto_targets(fv.cfg_edge, node, fv.cfg_edge.len() as int) + "\n}\n"@
}

/// The sections of the first `n` ordered nodes, separated by blank
/// lines.
pub open spec fn sections(fv: FactsView, order: Seq<Seq<char>>, n: int) -> Seq<char>
    decreases n,
{
    if n <= 0 {
        Seq::empty()
    } else {
        sections(fv, order, n - 1) + (if n > 1 {
            seq!['\n']
        } else {
            Seq::<char>::empty()
        }) + node_section(fv, order[n - 1])
    }
}

/// The whole rendering of a fact set.
pub open spec fn rendered(fv: FactsView) -> Seq<char> {
    sections(fv, ordered_nodes(fv), ordered_nodes(fv).len() as int)
}

// ---------------------------------------------------------------------
// Order lemmas
// ---------------------------------------------------------------------

/// No label orders strictly below itself.
proof fn lemma_label_lt_irrefl(a: Seq<char>)
    ensures
        !label_lt(a, a),
    decreases a.len(),
{
    if a.len() > 0 {
        lemma_label_lt_irrefl(a.skip(1));
    }
}

/// Two labels are ordered one way, the other, or equal.
proof fn lemma_label_lt_total(a: Seq<char>, b: Seq<char>)
    ensures
        label_lt(a, b) || label_lt(b, a) || a == b,
    decreases a.len(),
{
    if a.len() > 0 && b.len() > 0 && a[0] == b[0] {
        lemma_label_lt_total(a.skip(1), b.skip(1));
        if !label_lt(a, b) && !label_lt(b, a) {
            assert(a.skip(1) == b.skip(1));
            assert forall|j: int| 0 <= j < a.len() implies a[j] == b[j] by {
                if j > 0 {
                    assert(a.skip(1)[j - 1] == a[j]);
                    assert(b.skip(1)[j - 1] == b[j]);
                }
            }
            assert(a =~= b);
        }
    }
}

/// The order is asymmetric.
proof fn lemma_label_lt_asym(a: Seq<char>, b: Seq<char>)
    requires
        label_lt(a, b),
    ensures
        !label_lt(b, a),
    decreases a.len(),
{
    if a.len() > 0 && b.len() > 0 && a[0] == b[0] {
        lemma_label_lt_asym(a.skip(1), b.skip(1));
    }
}

/// Ordered insertion splits at any point whose prefix lies below the
/// inserted label.
proof fn lemma_insert_label_split(q: Seq<Seq<char>>, x: Seq<char>, i: int)
    requires
        0 <= i <= q.len(),
        forall|j: int| 0 <= j < i ==> label_lt(#[trigger] q[j], x),
    ensures
        insert_label(q, x) == q.take(i) + insert_label(q.skip(i), x),
    decreases i,
{
    if i == 0 {
        assert(q.skip(0) =~= q);
        assert(q.take(0) + insert_label(q, x) =~= insert_label(q, x));
    } else {
        lemma_label_lt_irrefl(q[0]);
        if label_lt(x, q[0]) {
            lemma_label_lt_asym(q[0], x);
            assert(false);
        } else if x == q[0] {
            lemma_label_lt_irrefl(x);
            assert(false);
        } else {
            lemma_insert_label_split(q.skip(1), x, i - 1);
            assert forall|j: int| 0 <= j < i - 1 implies label_lt(#[trigger] q.skip(1)[j], x) by {
                assert(q.skip(1)[j] == q[j + 1]);
            }
            assert(q.skip(1).take(i - 1) =~= q.take(i).skip(1));
            assert(q.skip(1).skip(i - 1) =~= q.skip(i));
            assert(seq![q[0]] + (q.skip(1).take(i - 1) + insert_label(q.skip(1).skip(i - 1), x))
                =~= q.take(i) + insert_label(q.skip(i), x));
        }
    }
}

// ---------------------------------------------------------------------
// Executable rendering
// ---------------------------------------------------------------------

/// Strict lexicographic comparison of two labels.
#[verifier::loop_isolation(false)]
fn label_lt_exec(a: &str, b: &str) -> (r: bool)
    ensures
        r == label_lt(a@, b@),
{
    let la = a.unicode_len();
    let lb = b.unicode_len();
    let mut i: usize = 0;
    proof {
        assert(a@.skip(0) =~= a@);
        assert(b@.skip(0) =~= b@);
    }
    while i < la && i < lb
        invariant
            0 <= i <= la,
            0 <= i <= lb,
            la == a@.len(),
            lb == b@.len(),
            label_lt(a@, b@) == label_lt(a@.skip(i as int), b@.skip(i as int)),
        decreases la - i,
    {
        let ca = a.get_char(i);
        let cb = b.get_char(i);
        proof {
            assert(a@.skip(i as int)[0] == a@[i as int]);
            assert(b@.skip(i as int)[0] == b@[i as int]);
            assert(a@.skip(i as int).skip(1) =~= a@.skip(i + 1));
            assert(b@.skip(i as int).skip(1) =~= b@.skip(i + 1));
        }
        if ca != cb {
            return (ca as u32) < (cb as u32);
        }
        i = i + 1;
    }
    la < lb
}

/// Inserts `label` into the ordered list of node labels, keeping the
/// list sorted and without duplicates.
#[verifier::loop_isolation(false)]
fn insert_node(order: &mut Vec<Node>, label: &Node)
    ensures
        names_view(final(order)@) == insert_label(names_view(old(order)@), label@),
{
    let ghost q = names_view(order@);
    let n = order.len();
    let mut i: usize = 0;
    while i < n
        invariant
            n == order@.len(),
            0 <= i <= n,
            order@ == old(order)@,
            forall|j: int| 0 <= j < i ==> label_lt(#[trigger] q[j], label@),
        decreases n - i,
    {
        proof {
            assert(q[i as int] == order@[i as int]@);
        }
        if crate::strutil::str_eq(order[i].as_str(), label.as_str()) {
            proof {
                lemma_insert_label_split(q, label@, i as int);
                assert(q.skip(i as int)[0] == q[i as int]);
                assert(insert_label(q.skip(i as int), label@) == q.skip(i as int));
                assert(q.take(i as int) + q.skip(i as int) =~= q);
            }
            return ;
        }
        if !label_lt_exec(order[i].as_str(), label.as_str()) {
            proof {
                lemma_insert_label_split(q, label@, i as int);
                lemma_label_lt_total(label@, q[i as int]);
                assert(q.skip(i as int)[0] == q[i as int]);
                assert(insert_label(q.skip(i as int), label@) == seq![label@] + q.skip(i as int));
            }
            order.insert(i, label.clone());
            proof {
                assert(names_view(order@) =~= q.take(i as int) + (seq![label@] + q.skip(i as int)));
            }
            return ;
        }
        i = i + 1;
    }
    proof {
        lemma_insert_label_split(q, label@, n as int);
        assert(q.skip(n as int).len() == 0);
        assert(insert_label(q.skip(n as int), label@) =~= seq![label@]);
    }
    order.push(label.clone());
    proof {
        assert(names_view(order@) =~= q.take(n as int) + seq![label@]);
    }
}

/// Appends the quoted form of `text` to `out`: quotes, backslashes,
/// line breaks and tabs are escaped.
#[verifier::loop_isolation(false)]
fn escape_into(out: &mut String, text: &str)
    ensures
        final(out)@ == old(out)@ + escaped(text@, text@.len() as int),
{
    let n = text.unicode_len();
    let mut i: usize = 0;
    proof {
        assert(out@ =~= out@ + escaped(text@, 0));
    }
    while i < n
        invariant
            n == text@.len(),
            0 <= i <= n,
            out@ == old(out)@ + escaped(text@, i as int),
        decreases n - i,
    {
        let c = text.get_char(i);
        if c == '"' {
            push_char(out, '\\');
            push_char(out, '"');
        } else if c == '\\' {
            push_char(out, '\\');
            push_char(out, '\\');
        } else if c == '\n' {
            push_char(out, '\\');
            push_char(out, 'n');
        } else if c == '\r' {
            push_char(out, '\\');
            push_char(out, 'r');
        } else if c == '\t' {
            push_char(out, '\\');
            push_char(out, 't');
        } else {
            push_char(out, c);
        }
        proof {
            assert(out@ =~= old(out)@ + escaped(text@, i + 1));
        }
        i = i + 1;
    }
}

/// The first `node_text` entry recorded for `node`, if any.
#[verifier::loop_isolation(false)]
fn find_text<'f>(texts: &'f Vec<(String, Node)>, node: &Node) -> (r: Option<&'f String>)
    ensures
        match r {
            Some(t) => text_of(
                texts@.map_values(|p: (String, Node)| (p.0@, p.1@)),
                node@,
            ) == Some(t@),
            None => text_of(
                texts@.map_values(|p: (String, Node)| (p.0@, p.1@)),
                node@,
            ) is None,
        },
{
    let ghost tv = texts@.map_values(|p: (String, Node)| (p.0@, p.1@));
    let n = texts.len();
    let mut i: usize = 0;
    proof {
        assert(tv.skip(0) =~= tv);
    }
    while i < n
        invariant
            n == texts@.len(),
            0 <= i <= n,
            text_of(tv, node@) == text_of(tv.skip(i as int), node@),
        decreases n - i,
    {
        proof {
            assert(tv.skip(i as int)[0] == tv[i as int]);
            assert(tv.skip(i as int).skip(1) =~= tv.skip(i + 1));
        }
        if texts[i].1 == *node {
            return Some(&texts[i].0);
        }
        i = i + 1;
    }
    proof {
        assert(tv.skip(n as int).len() == 0);
    }
    None
}

/// Appends one line per fact of a binary relation at `node`, in
/// order.
#[verifier::loop_isolation(false)]
fn append_fact_lines(out: &mut String, rel: &Vec<(Name, Node)>, node: &Node, name: &str)
    ensures
        final(out)@ == old(out)@ + fact_lines(
            rel@.map_values(|p: (Name, Node)| (p.0@, p.1@)),
            node@,
            name@,
            rel@.len() as int,
        ),
{
    let ghost rv = rel@.map_values(|p: (Name, Node)| (p.0@, p.1@));
    let n = rel.len();
    let mut i: usize = 0;
    proof {
        assert(out@ =~= out@ + fact_lines(rv, node@, name@, 0));
    }
    while i < n
        invariant
            n == rel@.len(),
            0 <= i <= n,
            out@ == old(out)@ + fact_lines(rv, node@, name@, i as int),
        decreases n - i,
    {
        proof {
            assert(rv[i as int] == (rel@[i as int].0@, rel@[i as int].1@));
        }
        if rel[i].1 == *node {
            push_char(out, '\t');
            out.append(name);
            push_char(out, '(');
            out.append(rel[i].0.as_str());
            push_char(out, ')');
            push_char(out, '\n');
        }
        proof {
            assert(out@ =~= old(out)@ + fact_lines(rv, node@, name@, i + 1));
        }
        i = i + 1;
    }
}

/// Appends one line per subset fact at `node`, in order.
#[verifier::loop_isolation(false)]
fn append_subset_lines(out: &mut String, rel: &Vec<(Name, Name, Node)>, node: &Node)
    ensures
        final(out)@ == old(out)@ + subset_lines(
            rel@.map_values(|p: (Name, Name, Node)| (p.0@, p.1@, p.2@)),
            node@,
            rel@.len() as int,
        ),
{
    let ghost rv = rel@.map_values(|p: (Name, Name, Node)| (p.0@, p.1@, p.2@));
    let n = rel.len();
    let mut i: usize = 0;
    proof {
        assert(out@ =~= out@ + subset_lines(rv, node@, 0));
    }
    while i < n
        invariant
            n == rel@.len(),
            0 <= i <= n,
            out@ == old(out)@ + subset_lines(rv, node@, i as int),
        decreases n - i,
    {
        proof {
            assert(rv[i as int] == (rel@[i as int].0@, rel@[i as int].1@, rel@[i as int].2@));
        }
        if rel[i].2 == *node {
            push_char(out, '\t');
            out.append("introduce_subset(");
            out.append(rel[i].0.as_str());
            out.append(", ");
            out.append(rel[i].1.as_str());
            push_char(out, ')');
            push_char(out, '\n');
        }
        proof {
            assert(out@ =~= old(out)@ + subset_lines(rv, node@, i + 1));
        }
        i = i + 1;
    }
}

/// Appends the successor labels of `node`, in edge order.
#[verifier::loop_isolation(false)]
fn append_goto_targets(out: &mut String, edges: &Vec<(Node, Node)>, node: &Node)
    ensures
        final(out)@ == old(out)@ + goto_targets(
            edges@.map_values(|p: (Node, Node)| (p.0@, p.1@)),
            node@,
            edges@.len() as int,
        ),
{
    let ghost ev = edges@.map_values(|p: (Node, Node)| (p.0@, p.1@));
    let n = edges.len();
    let mut i: usize = 0;
    proof {
        assert(out@ =~= out@ + goto_targets(ev, node@, 0));
    }
    while i < n
        invariant
            n == edges@.len(),
            0 <= i <= n,
            out@ == old(out)@ + goto_targets(ev, node@, i as int),
        decreases n - i,
    {
        proof {
            assert(ev[i as int] == (edges@[i as int].0@, edges@[i as int].1@));
        }
        if edges[i].0 == *node {
            push_char(out, ' ');
            out.append(edges[i].1.as_str());
        }
        proof {
            assert(out@ =~= old(out)@ + goto_targets(ev, node@, i + 1));
        }
        i = i + 1;
    }
}

impl Facts {
    /// Appends the rendered section of one node.
    #[verifier::rlimit(100)]
    #[verifier::spinoff_prover]
    fn append_section(&self, out: &mut String, node: &Node)
        ensures
            final(out)@ == old(out)@ + node_section(facts_view(*self), node@),
    {
        let ghost fv = facts_view(*self);
        out.append(node.as_str());
        out.append(": \"");
        match find_text(&self.node_text, node) {
            Some(t) => {
                escape_into(out, t.as_str());
            },
            None => {
                escape_into(out, "(pass)");
            },
        }
        out.append("\" {\n");
        append_fact_lines(out, &self.access_origin, node, "access_origin");
        append_fact_lines(out, &self.invalidate_origin, node, "invalidate_origin");
        append_fact_lines(out, &self.clear_origin, node, "clear_origin");
        append_subset_lines(out, &self.introduce_subset, node);
        out.append("\tgoto");
        append_goto_targets(out, &self.cfg_edge, node);
        out.append("\n}\n");
        proof {
            assert(out@ =~= old(out)@ + node_section(fv, node@));
        }
    }

    /// Renders the facts as the downstream engine's textual input:
    /// one section per node, in label order; each section carries the
    /// node's quoted source text (`(pass)` for nodes that only edges
    /// reach), its facts in the order access, invalidate, clear,
    /// subset, and a `goto` line naming its successors, present even
    /// when empty.
    #[verifier::loop_isolation(false)]
    #[verifier::rlimit(80)]
    pub fn render(&self) -> (r: String)
        ensures
            r@ == rendered(facts_view(*self)),
    {
        let ghost fv = facts_view(*self);
        let mut order: Vec<Node> = Vec::new();

        let n = self.cfg_edge.len();
        let mut i: usize = 0;
        while i < n
            invariant
                n == self.cfg_edge@.len(),
                0 <= i <= n,
                names_view(order@) == insert_edge_nodes(Seq::empty(), fv.cfg_edge, i as int),
            decreases n - i,
        {
            proof {
                assert(fv.cfg_edge[i as int] == (
                    self.cfg_edge@[i as int].0@,
                    self.cfg_edge@[i as int].1@,
                ));
            }
            insert_node(&mut order, &self.cfg_edge[i].0);
            insert_node(&mut order, &self.cfg_edge[i].1);
            i = i + 1;
        }

        let n = self.access_origin.len();
        let ghost q0 = names_view(order@);
        let mut i: usize = 0;
        while i < n
            invariant
                n == self.access_origin@.len(),
                0 <= i <= n,
                names_view(order@) == insert_fact_nodes(q0, fv.access_origin, i as int),
            decreases n - i,
        {
            proof {
                assert(fv.access_origin[i as int] == (
                    self.access_origin@[i as int].0@,
                    self.access_origin@[i as int].1@,
                ));
            }
            insert_node(&mut order, &self.access_origin[i].1);
            i = i + 1;
        }

        let n = self.invalidate_origin.len();
        let ghost q1 = names_view(order@);
        let mut i: usize = 0;
        while i < n
            invariant
                n == self.invalidate_origin@.len(),
                0 <= i <= n,
                names_view(order@) == insert_fact_nodes(q1, fv.invalidate_origin, i as int),
            decreases n - i,
        {
            proof {
                assert(fv.invalidate_origin[i as int] == (
                    self.invalidate_origin@[i as int].0@,
                    self.invalidate_origin@[i as int].1@,
                ));
            }
            insert_node(&mut order, &self.invalidate_origin[i].1);
            i = i + 1;
        }

        let n = self.clear_origin.len();
        let ghost q2 = names_view(order@);
        let mut i: usize = 0;
        while i < n
            invariant
                n == self.clear_origin@.len(),
                0 <= i <= n,
                names_view(order@) == insert_fact_nodes(q2, fv.clear_origin, i as int),
            decreases n - i,
        {
            proof {
                assert(fv.clear_origin[i as int] == (
                    self.clear_origin@[i as int].0@,
                    self.clear_origin@[i as int].1@,
                ));
            }
            insert_node(&mut order, &self.clear_origin[i].1);
            i = i + 1;
        }

        let n = self.introduce_subset.len();
        let ghost q3 = names_view(order@);
        let mut i: usize = 0;
        while i < n
            invariant
                n == self.introduce_subset@.len(),
                0 <= i <= n,
                names_view(order@) == insert_subset_nodes(q3, fv.introduce_subset, i as int),
            decreases n - i,
        {
            proof {
                assert(fv.introduce_subset[i as int] == (
                    self.introduce_subset@[i as int].0@,
                    self.introduce_subset@[i as int].1@,
                    self.introduce_subset@[i as int].2@,
                ));
            }
            insert_node(&mut order, &self.introduce_subset[i].2);
            i = i + 1;
        }

        proof {
            assert(names_view(order@) == ordered_nodes(fv));
        }

        let mut out = String::new();
        let m = order.len();
        let mut i: usize = 0;
        proof {
            assert(out@ =~= sections(fv, names_view(order@), 0));
        }
        while i < m
            invariant
                m == order@.len(),
                names_view(order@) == ordered_nodes(fv),
                0 <= i <= m,
                out@ == sections(fv, names_view(order@), i as int),
            decreases m - i,
        {
            if i > 0 {
                push_char(&mut out, '\n');
            }
            let node = &order[i];
            proof {
                assert(names_view(order@)[i as int] == node@);
            }
            self.append_section(&mut out, node);
            proof {
                assert(out@ =~= sections(fv, names_view(order@), i + 1));
            }
            i = i + 1;
        }
        out
    }
}

} // verus!
