//! Line-oriented rendering of encoding trees: one line per node, with the
//! columns of a struct node labelled by field name, and repeated struct nodes
//! collapsed to a one-line summary.

use vstd::prelude::*;
use crate::text::{decimal, decimal_string, views};
use crate::tree::{is_struct, is_struct_node, EncodingNode, NodeDetail};

verus! {

/// The short suffix that describes a node of a known encoding, or the empty
/// sequence.
pub open spec fn description(n: EncodingNode) -> Seq<char> {
    let id = n.encoding_id@;
    if id == "vortex.zstd"@ {
        " [Zstd]"@
    } else if id == "vortex.dict"@ {
        match n.detail {
            NodeDetail::Dict { values, codes } => " [Dict: "@ + decimal(values as nat) + " values, "@ + decimal(codes as nat)
                + " codes]"@,
            _ => " [Dict]"@,
        }
    } else if id == "vortex.runend"@ {
        match n.detail {
            NodeDetail::RunEnd { runs } => " [RLE: "@ + decimal(runs as nat) + " runs]"@,
            _ => " [RLE]"@,
        }
    } else if id == "vortex.sparse"@ {
        " [Sparse]"@
    } else if id == "vortex.alp"@ {
        " [ALP float compression]"@
    } else if id == "vortex.alprd"@ {
        " [ALP-RD]"@
    } else if id == "vortex.pco"@ {
        " [PCO quantile compression]"@
    } else if id == "vortex.for"@ {
        " [Frame-of-Reference]"@
    } else if id == "fastlanes.bitpacked"@ {
        " [Bit-packed]"@
    } else if id == "vortex.delta"@ {
        " [Delta]"@
    } else if id == "vortex.fsst"@ {
        " [FSST string compression]"@
    } else if id == "vortex.sequence"@ {
        " [Sequence]"@
    } else if id == "vortex.constant"@ {
        " [Constant]"@
    } else {
        Seq::empty()
    }
}

/// The line of node `n` under the indentation `ind`.
pub open spec fn node_line(n: EncodingNode, ind: Seq<char>) -> Seq<char> {
    ind + "└─ "@ + n.encoding_id@ + " ("@ + decimal(n.byte_size as nat) + " bytes)"@ + description(n)
}

/// The label of a column of a struct node under the indentation `ind`.
pub open spec fn column_line(ind: Seq<char>, last: bool, name: Seq<char>) -> Seq<char> {
    ind + "  "@ + (if last { "└─"@ } else { "├─"@ }) + " Column ["@ + name + "]:"@
}

/// The summary that stands for a struct node of `count` columns that is not
/// expanded.
pub open spec fn same_line(ind: Seq<char>, count: nat) -> Seq<char> {
    ind + "  [Same structure: "@ + decimal(count) + " columns]"@
}

/// The lines of `n` and of every node below it, each level indented two
/// spaces more than its parent.
pub open spec fn plain_lines(n: EncodingNode, ind: Seq<char>) -> Seq<Seq<char>>
    decreases n,
{
    seq![node_line(n, ind)] + plain_all(n.children@, ind + "  "@)
}

/// The lines of the trees `cs` one after the other.
pub open spec fn plain_all(cs: Seq<EncodingNode>, ind: Seq<char>) -> Seq<Seq<char>>
    decreases cs,
{
    if cs.len() == 0 {
        Seq::empty()
    } else {
        plain_all(cs.subrange(0, cs.len() - 1), ind) + plain_lines(cs[cs.len() - 1], ind)
    }
}

/// The first `k` columns of a struct node whose children `cs` line up with
/// `names`: a label for each, then the plain lines of its subtree.
pub open spec fn column_lines(cs: Seq<EncodingNode>, names: Seq<Seq<char>>, ind: Seq<char>, k: nat) -> Seq<Seq<char>>
    decreases k,
{
    if k == 0 {
        Seq::empty()
    } else {
        column_lines(cs, names, ind, (k - 1) as nat) + seq![column_line(ind, k == names.len(), names[k - 1])]
            + plain_lines(cs[k - 1], ind + "    "@)
    }
}

/// The lines of `n` with struct nodes labelled by `names`, and whether a
/// struct node has been expanded once the walk is done. A struct node whose
/// child count equals the number of names is expanded column by column,
/// unless `collapse` holds and one has been expanded before, in document
/// order; then it is summed up in one line. Any other node is followed by
/// the lines of its children.
pub open spec fn named_lines(n: EncodingNode, ind: Seq<char>, names: Seq<Seq<char>>, collapse: bool, expanded: bool) -> (Seq<Seq<char>>, bool)
    decreases n,
{
    if is_struct(n) && n.children@.len() == names.len() {
        if collapse && expanded {
            (seq![node_line(n, ind), same_line(ind, names.len())], true)
        } else {
            (seq![node_line(n, ind)] + column_lines(n.children@, names, ind, names.len()), true)
        }
    } else {
        let r = named_all(n.children@, ind + "  "@, names, collapse, expanded);
        (seq![node_line(n, ind)] + r.0, r.1)
    }
}

/// `named_lines` over the trees `cs` one after the other, the flag carried
/// from each to the next.
pub open spec fn named_all(cs: Seq<EncodingNode>, ind: Seq<char>, names: Seq<Seq<char>>, collapse: bool, expanded: bool) -> (Seq<Seq<char>>, bool)
    decreases cs,
{
    if cs.len() == 0 {
        (Seq::empty(), expanded)
    } else {
        let p = named_all(cs.subrange(0, cs.len() - 1), ind, names, collapse, expanded);
        let q = named_lines(cs[cs.len() - 1], ind, names, collapse, p.1);
        (p.0 + q.0, q.1)
    }
}

/// The rendered tree: the plain lines where no field names are given, else
/// the labelled lines.
pub open spec fn rendered(n: EncodingNode, names: Option<Seq<Seq<char>>>, collapse: bool) -> Seq<Seq<char>> {
    match names {
        None => plain_lines(n, Seq::empty()),
        Some(ns) => named_lines(n, Seq::empty(), ns, collapse, false).0,
    }
}

fn id_is(id: &String, lit: &str) -> (r: bool)
    ensures
        r == (id@ == lit@),
{
    *id == String::from_str(lit)
}

/// The short suffix that describes `node`, after its encoding id.
pub fn encoding_description(node: &EncodingNode) -> (r: String)
    ensures
        r@ == description(*node),
{
    let id = &node.encoding_id;
    if id_is(id, "vortex.zstd") {
        String::from_str(" [Zstd]")
    } else if id_is(id, "vortex.dict") {
        match node.detail {
            NodeDetail::Dict { values, codes } => {
                let mut s = String::from_str(" [Dict: ");
                s.append(decimal_string(values).as_str());
                s.append(" values, ");
                s.append(decimal_string(codes).as_str());
                s.append(" codes]");
                s
            },
            _ => String::from_str(" [Dict]"),
        }
    } else if id_is(id, "vortex.runend") {
        match node.detail {
            NodeDetail::RunEnd { runs } => {
                let mut s = String::from_str(" [RLE: ");
                s.append(decimal_string(runs).as_str());
                s.append(" runs]");
                s
            },
            _ => String::from_str(" [RLE]"),
        }
    } else if id_is(id, "vortex.sparse") {
        String::from_str(" [Sparse]")
    } else if id_is(id, "vortex.alp") {
        String::from_str(" [ALP float compression]")
    } else if id_is(id, "vortex.alprd") {
        String::from_str(" [ALP-RD]")
    } else if id_is(id, "vortex.pco") {
        String::from_str(" [PCO quantile compression]")
    } else if id_is(id, "vortex.for") {
        String::from_str(" [Frame-of-Reference]")
    } else if id_is(id, "fastlanes.bitpacked") {
        String::from_str(" [Bit-packed]")
    } else if id_is(id, "vortex.delta") {
        String::from_str(" [Delta]")
    } else if id_is(id, "vortex.fsst") {
        String::from_str(" [FSST string compression]")
    } else if id_is(id, "vortex.sequence") {
        String::from_str(" [Sequence]")
    } else if id_is(id, "vortex.constant") {
        String::from_str(" [Constant]")
    } else {
        String::new()
    }
}

fn node_line_string(node: &EncodingNode, ind: &String) -> (r: String)
    ensures
        r@ == node_line(*node, ind@),
{
    let mut s = ind.clone();
    s.append("└─ ");
    s.append(node.encoding_id.as_str());
    s.append(" (");
    s.append(decimal_string(node.byte_size).as_str());
    s.append(" bytes)");
    s.append(encoding_description(node).as_str());
    s
}

fn push_plain_lines(node: &EncodingNode, ind: &String, out: &mut Vec<String>)
    ensures
        views(final(out)@) == views(old(out)@) + plain_lines(*node, ind@),
    decreases node,
{
    let ghost start = views(out@);
    let line = node_line_string(node, ind);
    out.push(line);
    assert(views(out@) =~= start + seq![node_line(*node, ind@)]);
    let child_ind = ind.clone().concat("  ");
    let len = node.children.len();
    let mut i: usize = 0;
    while i < len
        invariant
            len == node.children@.len(),
            i <= len,
            child_ind@ == ind@ + "  "@,
            views(out@) == start + seq![node_line(*node, ind@)] + plain_all(node.children@.subrange(0, i as int), child_ind@),
        decreases len - i,
    {
        let ghost cs = node.children@.subrange(0, i as int + 1);
        assert(cs.subrange(0, cs.len() - 1) =~= node.children@.subrange(0, i as int));
        assert(cs[cs.len() - 1] == node.children@[i as int]);
        push_plain_lines(&node.children[i], &child_ind, out);
        i += 1;
    }
    assert(node.children@.subrange(0, len as int) =~= node.children@);
}

fn push_column_lines(cs: &Vec<EncodingNode>, names: &Vec<String>, ind: &String, out: &mut Vec<String>)
    requires
        cs@.len() == names@.len(),
    ensures
        views(final(out)@) == views(old(out)@) + column_lines(cs@, views(names@), ind@, names@.len() as nat),
{
    let ghost start = views(out@);
    let col_ind = ind.clone().concat("    ");
    let len = names.len();
    let mut k: usize = 0;
    while k < len
        invariant
            len == names@.len(),
            cs@.len() == len,
            k <= len,
            col_ind@ == ind@ + "    "@,
            views(out@) == start + column_lines(cs@, views(names@), ind@, k as nat),
        decreases len - k,
    {
        let ghost before = views(out@);
        let mut label = ind.clone();
        label.append("  ");
        if k + 1 == len {
            label.append("└─");
        } else {
            label.append("├─");
        }
        label.append(" Column [");
        label.append(names[k].as_str());
        label.append("]:");
        out.push(label);
        let ghost kk = (k + 1) as nat;
        assert(views(out@) =~= before + seq![column_line(ind@, kk == names@.len(), views(names@)[kk - 1])]);
        push_plain_lines(&cs[k], &col_ind, out);
        assert(views(out@) =~= start + column_lines(cs@, views(names@), ind@, kk));
        k += 1;
    }
}

fn push_named_lines(
    node: &EncodingNode,
    ind: &String,
    names: &Vec<String>,
    collapse: bool,
    expanded: bool,
    out: &mut Vec<String>,
) -> (e: bool)
    ensures
        views(final(out)@) == views(old(out)@) + named_lines(*node, ind@, views(names@), collapse, expanded).0,
        e == named_lines(*node, ind@, views(names@), collapse, expanded).1,
    decreases node,
{
    let ghost start = views(out@);
    let line = node_line_string(node, ind);
    out.push(line);
    assert(views(out@) =~= start + seq![node_line(*node, ind@)]);
    if is_struct_node(node) && node.children.len() == names.len() {
        if collapse && expanded {
            let mut summary = ind.clone();
            summary.append("  [Same structure: ");
            summary.append(decimal_string(names.len() as u64).as_str());
            summary.append(" columns]");
            out.push(summary);
            assert(views(out@) =~= start + seq![node_line(*node, ind@), same_line(ind@, names@.len() as nat)]);
        } else {
            push_column_lines(&node.children, names, ind, out);
            assert(views(out@) =~= start + (seq![node_line(*node, ind@)] + column_lines(
                node.children@,
                views(names@),
                ind@,
                names@.len() as nat,
            )));
        }
        return true;
    }
    let child_ind = ind.clone().concat("  ");
    let len = node.children.len();
    let mut flag = expanded;
    let mut i: usize = 0;
    while i < len
        invariant
            len == node.children@.len(),
            i <= len,
            child_ind@ == ind@ + "  "@,
            views(out@) == start + seq![node_line(*node, ind@)] + named_all(
                node.children@.subrange(0, i as int),
                child_ind@,
                views(names@),
                collapse,
                expanded,
            ).0,
            flag == named_all(node.children@.subrange(0, i as int), child_ind@, views(names@), collapse, expanded).1,
        decreases len - i,
    {
        let ghost cs = node.children@.subrange(0, i as int + 1);
        assert(cs.subrange(0, cs.len() - 1) =~= node.children@.subrange(0, i as int));
        assert(cs[cs.len() - 1] == node.children@[i as int]);
        flag = push_named_lines(&node.children[i], &child_ind, names, collapse, flag, out);
        i += 1;
    }
    assert(node.children@.subrange(0, len as int) =~= node.children@);
    flag
}

/// The lines that display `root`: with `field_names`, the columns of a struct
/// node whose child count matches are labelled by name, and with
/// `collapse_repeats` each such struct node after the first expanded one is
/// summed up in one line; without them every node is listed under its
/// parent.
pub fn render_tree(root: &EncodingNode, field_names: Option<&Vec<String>>, collapse_repeats: bool) -> (r: Vec<String>)
    ensures
        views(r@) == rendered(
            *root,
            match field_names {
                None => None,
                Some(v) => Some(views(v@)),
            },
            collapse_repeats,
        ),
{
    let mut out: Vec<String> = Vec::new();
    let ind = String::new();
    match field_names {
        None => {
            push_plain_lines(root, &ind, &mut out);
        },
        Some(names) => {
            push_named_lines(root, &ind, names, collapse_repeats, false, &mut out);
        },
    }
    assert(views(out@) =~= Seq::<Seq<char>>::empty() + views(out@));
    out
}

/// A struct node whose child count differs from the number of field names
/// gets no column labels: its children follow it as unnamed nodes, each
/// searched for struct nodes of its own.
pub proof fn mismatched_struct_is_not_labelled(
    n: EncodingNode,
    ind: Seq<char>,
    names: Seq<Seq<char>>,
    collapse: bool,
    expanded: bool,
)
    requires
        is_struct(n),
        n.children@.len() != names.len(),
    ensures
        named_lines(n, ind, names, collapse, expanded) == ({
            let r = named_all(n.children@, ind + "  "@, names, collapse, expanded);
            (seq![node_line(n, ind)] + r.0, r.1)
        }),
{
}

/// With repeats collapsed, a struct node that lines up with the field names
/// and comes after one that was expanded is summed up in a single line
/// after its own.
pub proof fn repeated_struct_is_summed_up(n: EncodingNode, ind: Seq<char>, names: Seq<Seq<char>>)
    requires
        is_struct(n),
        n.children@.len() == names.len(),
    ensures
        named_lines(n, ind, names, true, true) == (seq![node_line(n, ind), same_line(ind, names.len())], true),
{
}

/// The first struct node that lines up with the field names is expanded:
/// one labelled line per column, each followed by that column's subtree.
pub proof fn first_struct_is_expanded(n: EncodingNode, ind: Seq<char>, names: Seq<Seq<char>>, collapse: bool)
    requires
        is_struct(n),
        n.children@.len() == names.len(),
    ensures
        named_lines(n, ind, names, collapse, false) == (
            seq![node_line(n, ind)] + column_lines(n.children@, names, ind, names.len()),
            true,
        ),
{
}

} // verus!
