//! Column-level lineage records and their graph rendering.
//!
//! Extracting lineage from SQL is a sibling feature the planner only stores
//! results for; here stand the records themselves and the DOT rendering of
//! a computed lineage.

use vstd::prelude::*;
use vstd::string::StrSliceExecFns;
use vstd::string::StringExecFns;

use crate::strutil;

verus! {

/// A column reference: an optional table and the column's name.
pub struct ColumnRef {
    pub table: Option<String>,
    pub column: String,
}

/// The label a column reference renders as: `table.column`, or the bare
/// column name.
pub open spec fn column_ref_label(c: ColumnRef) -> Seq<char> {
    match c.table {
        Option::Some(t) => t@ + "."@ + c.column@,
        Option::None => c.column@,
    }
}

impl ColumnRef {
    /// Creates a column reference.
    pub fn new(table: Option<String>, column: String) -> (r: ColumnRef)
        ensures
            r.table == table,
            r.column == column,
    {
        ColumnRef { table, column }
    }

    /// Renders the reference's label.
    pub fn label(&self) -> (r: String)
        ensures
            r@ == column_ref_label(*self),
    {
        match &self.table {
            Option::Some(t) => {
                let mut out = t.clone();
                out = out.concat(".");
                out = out.concat(self.column.as_str());
                proof {
                    assert(out@ =~= column_ref_label(*self));
                }
                out
            },
            Option::None => self.column.clone(),
        }
    }
}

/// Where one output column draws from, and through what kind of
/// transformation.
pub struct ColumnLineage {
    pub target: ColumnRef,
    pub sources: Vec<ColumnRef>,
    pub transformation: String,
}

/// The DOT lines one lineage record contributes: its target node, then one
/// labelled edge per source.
pub open spec fn lineage_item_seq(item: ColumnLineage) -> Seq<char> {
    "  \""@ + column_ref_label(item.target) + "\" [style=filled, fillcolor=lightblue];\n"@
        + strutil::join_with(
        Seq::new(
            item.sources@.len(),
            |j: int| "  \""@ + column_ref_label(item.sources@[j]) + "\" -> \""@
                + column_ref_label(item.target) + "\" [label=\""@ + item.transformation@
                + "\"];\n"@,
        ),
        ""@,
    )
}

/// The whole lineage graph in DOT form.
pub open spec fn lineage_graph_seq(lineage: Seq<ColumnLineage>) -> Seq<char> {
    "digraph lineage {\n  rankdir=LR;\n  node [shape=box];\n"@ + strutil::join_with(
        Seq::new(lineage.len(), |i: int| lineage_item_seq(lineage[i])),
        ""@,
    ) + "}\n"@
}

/// Renders a computed lineage as a DOT graph.
pub fn generate_lineage_graph(lineage: &Vec<ColumnLineage>) -> (r: String)
    ensures
        r@ == lineage_graph_seq(lineage@),
{
    let ghost ispec = Seq::new(lineage@.len(), |i: int| lineage_item_seq(lineage@[i]));
    let n: usize = lineage.len();
    let mut items: Vec<String> = Vec::new();
    let mut i: usize = 0;
    while i < n
        invariant
            ispec == Seq::new(lineage@.len(), |k: int| lineage_item_seq(lineage@[k])),
            n == lineage@.len(),
            0 <= i <= n,
            items@.len() == i,
            forall|j: int| 0 <= j < i ==> items.deep_view()[j] == ispec[j],
        decreases n - i,
    {
        let item = &lineage[i];
        let target_label = item.target.label();
        let mut piece = String::from_str("  \"");
        piece = piece.concat(target_label.as_str());
        piece = piece.concat("\" [style=filled, fillcolor=lightblue];\n");
        let ghost edge_spec = Seq::new(
            item.sources@.len(),
            |j: int| "  \""@ + column_ref_label(item.sources@[j]) + "\" -> \""@
                + column_ref_label(item.target) + "\" [label=\""@ + item.transformation@
                + "\"];\n"@,
        );
        let ns: usize = item.sources.len();
        let mut edges: Vec<String> = Vec::new();
        let mut j: usize = 0;
        while j < ns
            invariant
                item == &lineage[i as int],
                i < lineage@.len(),
                target_label@ == column_ref_label(item.target),
                edge_spec == Seq::new(
                    item.sources@.len(),
                    |j2: int| "  \""@ + column_ref_label(item.sources@[j2]) + "\" -> \""@
                        + column_ref_label(item.target) + "\" [label=\""@
                        + item.transformation@ + "\"];\n"@,
                ),
                ns == item.sources@.len(),
                0 <= j <= ns,
                edges@.len() == j,
                forall|k: int| 0 <= k < j ==> edges.deep_view()[k] == edge_spec[k],
            decreases ns - j,
        {
            let src_label = item.sources[j].label();
            let mut line = String::from_str("  \"");
            line = line.concat(src_label.as_str());
            line = line.concat("\" -> \"");
            line = line.concat(target_label.as_str());
            line = line.concat("\" [label=\"");
            line = line.concat(item.transformation.as_str());
            line = line.concat("\"];\n");
            proof {
                assert(line@ =~= edge_spec[j as int]);
            }
            edges.push(line);
            j = j + 1;
        }
        proof {
            assert(edges.deep_view() =~= edge_spec);
        }
        let joined = strutil::join_strings(&edges, "");
        piece = piece.concat(joined.as_str());
        proof {
            assert(piece@ =~= ispec[i as int]);
        }
        items.push(piece);
        i = i + 1;
    }
    proof {
        assert(items.deep_view() =~= ispec);
    }
    let joined = strutil::join_strings(&items, "");
    let mut out = String::from_str("digraph lineage {\n  rankdir=LR;\n  node [shape=box];\n");
    out = out.concat(joined.as_str());
    out = out.concat("}\n");
    proof {
        assert(out@ =~= lineage_graph_seq(lineage@));
    }
    out
}

} // verus!
