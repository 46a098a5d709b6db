//! In-memory encoding trees and the searches over them: the first struct node
//! in document order, whether an encoding occurs, and which columns use it.

use vstd::prelude::*;
use crate::render::{description, encoding_description};
use crate::text::views;

verus! {

/// Encoding-specific facts that a node may carry.
#[derive(Clone, Copy, Debug, PartialEq, Eq, Structural)]
pub enum NodeDetail {
    /// Nothing beyond the encoding id.
    Plain,
    /// A dictionary node: the number of distinct values and of codes.
    Dict { values: u64, codes: u64 },
    /// A run-length node: the number of runs.
    RunEnd { runs: u64 },
}

/// One node of an encoding tree: its encoding id, its size in bytes and its
/// children in order.
#[derive(Debug)]
pub struct EncodingNode {
    pub encoding_id: String,
    pub byte_size: u64,
    pub children: Vec<EncodingNode>,
    pub detail: NodeDetail,
}

/// One column of a file, paired with the node that holds its data.
#[derive(Debug)]
pub struct ColumnEncoding {
    pub name: String,
    pub encoding_id: String,
    pub byte_size: u64,
    pub description: String,
}

/// The encoding id of struct nodes, whose children are the columns.
pub open spec fn struct_id() -> Seq<char> {
    "vortex.struct"@
}

pub open spec fn is_struct(n: EncodingNode) -> bool {
    n.encoding_id@ == struct_id()
}

/// Whether `n` or any node below it has the encoding id `t`.
pub open spec fn contains(n: EncodingNode, t: Seq<char>) -> bool
    decreases n,
{
    n.encoding_id@ == t || contains_any(n.children@, t)
}

/// Whether any of the trees `cs` contains the encoding id `t`.
pub open spec fn contains_any(cs: Seq<EncodingNode>, t: Seq<char>) -> bool
    decreases cs,
{
    if cs.len() == 0 {
        false
    } else {
        contains(cs[0], t) || contains_any(cs.subrange(1, cs.len() as int), t)
    }
}

/// The children of the first struct node of `n` in depth-first pre-order
/// whose children are not empty; a struct node at the top is taken whatever
/// its children, and no search goes below a struct node.
pub open spec fn first_struct_children(n: EncodingNode) -> Seq<EncodingNode>
    decreases n,
{
    if is_struct(n) {
        n.children@
    } else {
        first_struct_in(n.children@)
    }
}

/// The first non-empty result of `first_struct_children` over `cs`, or the
/// empty sequence.
pub open spec fn first_struct_in(cs: Seq<EncodingNode>) -> Seq<EncodingNode>
    decreases cs,
{
    if cs.len() == 0 {
        Seq::empty()
    } else {
        let r = first_struct_children(cs[0]);
        if r.len() > 0 {
            r
        } else {
            first_struct_in(cs.subrange(1, cs.len() as int))
        }
    }
}

/// The names among the first `k` of `names` whose positional partner in `cs`
/// contains the encoding id `t`.
pub open spec fn matching_columns(names: Seq<Seq<char>>, cs: Seq<EncodingNode>, t: Seq<char>, k: nat) -> Seq<Seq<char>>
    decreases k,
{
    if k == 0 {
        Seq::empty()
    } else {
        let before = matching_columns(names, cs, t, (k - 1) as nat);
        if contains(cs[k - 1], t) {
            before.push(names[k - 1])
        } else {
            before
        }
    }
}

pub open spec fn min_len(a: int, b: int) -> nat {
    if a <= b { a as nat } else { b as nat }
}

/// The columns reported as using the encoding id `t`: all of them where `t`
/// occurs anywhere in the tree, since a node of a chunked tree cannot be
/// traced back to one column; else those whose positional partner among the
/// first struct node's children contains it.
pub open spec fn columns_with(n: EncodingNode, t: Seq<char>, names: Seq<Seq<char>>) -> Seq<Seq<char>> {
    if contains(n, t) {
        names
    } else {
        let cs = first_struct_children(n);
        matching_columns(names, cs, t, min_len(names.len() as int, cs.len() as int))
    }
}

impl EncodingNode {
    /// A node with no encoding-specific facts.
    pub fn new(encoding_id: String, byte_size: u64, children: Vec<EncodingNode>) -> (r: Self)
        ensures
            r.encoding_id == encoding_id,
            r.byte_size == byte_size,
            r.children == children,
            r.detail == NodeDetail::Plain,
    {
        EncodingNode { encoding_id, byte_size, children, detail: NodeDetail::Plain }
    }
}

/// Whether `n` is a struct node.
pub fn is_struct_node(n: &EncodingNode) -> (r: bool)
    ensures
        r == is_struct(*n),
{
    n.encoding_id == String::from_str("vortex.struct")
}

fn contains_id(node: &EncodingNode, target: &String) -> (r: bool)
    ensures
        r == contains(*node, target@),
    decreases node,
{
    if node.encoding_id == *target {
        return true;
    }
    let len = node.children.len();
    let mut i: usize = 0;
    assert(node.children@.subrange(0, len as int) =~= node.children@);
    while i < len
        invariant
            len == node.children@.len(),
            i <= len,
            contains_any(node.children@, target@) == contains_any(node.children@.subrange(i as int, len as int), target@),
        decreases len - i,
    {
        let ghost rest = node.children@.subrange(i as int, len as int);
        assert(rest[0] == node.children@[i as int]);
        assert(rest.subrange(1, rest.len() as int) =~= node.children@.subrange(i as int + 1, len as int));
        if contains_id(&node.children[i], target) {
            return true;
        }
        i += 1;
    }
    false
}

/// Whether `root` or any node below it has the encoding id `target`.
pub fn contains_encoding(root: &EncodingNode, target: &str) -> (r: bool)
    ensures
        r == contains(*root, target@),
{
    let t = String::from_str(target);
    contains_id(root, &t)
}

/// The children of the first struct node met in depth-first pre-order, or
/// an empty slice where there is none.
pub fn find_first_struct_children<'a>(root: &'a EncodingNode) -> (r: &'a [EncodingNode])
    ensures
        r@ == first_struct_children(*root),
    decreases root,
{
    if is_struct_node(root) {
        return root.children.as_slice();
    }
    let len = root.children.len();
    let mut last: &'a [EncodingNode] = root.children.as_slice();
    let mut i: usize = 0;
    assert(root.children@.subrange(0, len as int) =~= root.children@);
    while i < len
        invariant
            len == root.children@.len(),
            i <= len,
            !is_struct(*root),
            first_struct_in(root.children@) == first_struct_in(root.children@.subrange(i as int, len as int)),
            i == 0 ==> last@ == root.children@,
            i > 0 ==> last@.len() == 0,
        decreases len - i,
    {
        let ghost rest = root.children@.subrange(i as int, len as int);
        assert(rest[0] == root.children@[i as int]);
        assert(rest.subrange(1, rest.len() as int) =~= root.children@.subrange(i as int + 1, len as int));
        let found = find_first_struct_children(&root.children[i]);
        if found.len() > 0 {
            return found;
        }
        last = found;
        i += 1;
    }
    assert(root.children@.subrange(len as int, len as int).len() == 0);
    last
}

/// The columns that use the encoding `target`: every name where the
/// encoding occurs anywhere in the tree, else the names whose positional
/// partner among the first struct node's children contains it.
pub fn find_columns_with_encoding(root: &EncodingNode, target: &str, column_names: &Vec<String>) -> (r: Vec<String>)
    ensures
        views(r@) == columns_with(*root, target@, views(column_names@)),
{
    let t = String::from_str(target);
    let mut result: Vec<String> = Vec::new();
    if contains_id(root, &t) {
        let mut i: usize = 0;
        while i < column_names.len()
            invariant
                i <= column_names@.len(),
                views(result@) == views(column_names@).subrange(0, i as int),
            decreases column_names@.len() - i,
        {
            let ghost before = result@;
            result.push(column_names[i].clone());
            assert(views(result@) =~= views(before).push(column_names@[i as int]@));
            assert(views(result@) =~= views(column_names@).subrange(0, i as int + 1));
            i += 1;
        }
        assert(views(column_names@).subrange(0, column_names@.len() as int) =~= views(column_names@));
        return result;
    }
    let cs = find_first_struct_children(root);
    let n = if column_names.len() <= cs.len() { column_names.len() } else { cs.len() };
    let mut k: usize = 0;
    while k < n
        invariant
            n == min_len(column_names@.len() as int, cs@.len() as int),
            t@ == target@,
            k <= n,
            cs@ == first_struct_children(*root),
            views(result@) == matching_columns(views(column_names@), cs@, target@, k as nat),
        decreases n - k,
    {
        let ghost before = result@;
        let ghost kk = (k + 1) as nat;
        assert((kk - 1) as nat == k as nat);
        if contains_id(&cs[k], &t) {
            result.push(column_names[k].clone());
            assert(views(result@) =~= views(before).push(views(column_names@)[k as int]));
        }
        assert(views(result@) == matching_columns(views(column_names@), cs@, target@, kk));
        k += 1;
    }
    result
}

/// The columns of the first struct node, each paired with its name by
/// position, as far as both the names and the children go; empty where the
/// tree holds no struct node with children.
pub fn column_encodings(root: &EncodingNode, column_names: &Vec<String>) -> (r: Vec<ColumnEncoding>)
    ensures
        r@.len() == min_len(column_names@.len() as int, first_struct_children(*root).len() as int),
        forall|i: int|
            0 <= i < r@.len() ==> {
                let c = #[trigger] r@[i];
                let n = first_struct_children(*root)[i];
                &&& c.name@ == column_names@[i]@
                &&& c.encoding_id@ == n.encoding_id@
                &&& c.byte_size == n.byte_size
                &&& c.description@ == description(n)
            },
{
    let cs = find_first_struct_children(root);
    let n = if column_names.len() <= cs.len() { column_names.len() } else { cs.len() };
    let mut result: Vec<ColumnEncoding> = Vec::new();
    let mut k: usize = 0;
    while k < n
        invariant
            n == min_len(column_names@.len() as int, cs@.len() as int),
            k <= n,
            cs@ == first_struct_children(*root),
            result@.len() == k,
            forall|i: int|
                0 <= i < k ==> {
                    let c = #[trigger] result@[i];
                    let n = cs@[i];
                    &&& c.name@ == column_names@[i]@
                    &&& c.encoding_id@ == n.encoding_id@
                    &&& c.byte_size == n.byte_size
                    &&& c.description@ == description(n)
                },
        decreases n - k,
    {
        let child = &cs[k];
        let entry = ColumnEncoding {
            name: column_names[k].clone(),
            encoding_id: child.encoding_id.clone(),
            byte_size: child.byte_size,
            description: encoding_description(child),
        };
        result.push(entry);
        k += 1;
    }
    result
}

/// A struct node's own children are what the search returns for it: no
/// struct node below it is ever consulted, however deep.
pub proof fn first_struct_is_outermost(n: EncodingNode)
    requires
        is_struct(n),
    ensures
        first_struct_children(n) == n.children@,
{
}

/// Where the encoding occurs anywhere in the tree, every column is
/// reported, however few of the nodes carry it.
pub proof fn present_encoding_flags_every_column(n: EncodingNode, t: Seq<char>, names: Seq<Seq<char>>)
    requires
        contains(n, t),
    ensures
        columns_with(n, t, names) == names,
{
}

/// Each tree that the search returns lies in `n`: where it holds the
/// encoding id `t`, so does `n`.
pub proof fn first_struct_children_lie_within(n: EncodingNode, t: Seq<char>)
    ensures
        forall|i: int| 0 <= i < first_struct_children(n).len() && contains(#[trigger] first_struct_children(n)[i], t) ==> contains(n, t),
    decreases n,
{
    if !is_struct(n) {
        first_struct_in_lies_within(n.children@, t);
        assert(first_struct_children(n) == first_struct_in(n.children@));
        assert forall|i: int| 0 <= i < first_struct_children(n).len() && contains(#[trigger] first_struct_children(n)[i], t)
            implies contains(n, t) by {
            assert(contains(first_struct_in(n.children@)[i], t));
        }
    } else {
        assert forall|i: int| 0 <= i < first_struct_children(n).len() && contains(#[trigger] first_struct_children(n)[i], t)
            implies contains(n, t) by {
            contains_any_holds_each(n.children@, t, i);
        }
    }
}

proof fn first_struct_in_lies_within(cs: Seq<EncodingNode>, t: Seq<char>)
    ensures
        forall|i: int| 0 <= i < first_struct_in(cs).len() && contains(#[trigger] first_struct_in(cs)[i], t) ==> contains_any(cs, t),
    decreases cs,
{
    if cs.len() > 0 {
        let rest = cs.subrange(1, cs.len() as int);
        first_struct_children_lie_within(cs[0], t);
        first_struct_in_lies_within(rest, t);
        let r0 = first_struct_children(cs[0]);
        assert forall|i: int| 0 <= i < first_struct_in(cs).len() && contains(#[trigger] first_struct_in(cs)[i], t)
            implies contains_any(cs, t) by {
            if r0.len() > 0 {
                assert(first_struct_in(cs) == r0);
                assert(contains(r0[i], t));
                assert(contains(cs[0], t));
            } else {
                assert(first_struct_in(cs) == first_struct_in(rest));
                assert(contains(first_struct_in(rest)[i], t));
                assert(contains_any(rest, t));
            }
        }
    }
}

proof fn contains_any_holds_each(cs: Seq<EncodingNode>, t: Seq<char>, i: int)
    requires
        0 <= i < cs.len(),
        contains(cs[i], t),
    ensures
        contains_any(cs, t),
    decreases cs.len(),
{
    if i > 0 {
        let rest = cs.subrange(1, cs.len() as int);
        assert(rest[i - 1] == cs[i]);
        contains_any_holds_each(rest, t, i - 1);
    }
}

proof fn matching_columns_empty(names: Seq<Seq<char>>, cs: Seq<EncodingNode>, t: Seq<char>, k: nat)
    requires
        k <= cs.len(),
        forall|i: int| 0 <= i < cs.len() ==> !contains(#[trigger] cs[i], t),
    ensures
        matching_columns(names, cs, t, k).len() == 0,
    decreases k,
{
    if k > 0 {
        matching_columns_empty(names, cs, t, (k - 1) as nat);
    }
}

/// Where the encoding occurs nowhere in the tree, no column is reported: the
/// answer is all of the columns or none of them.
pub proof fn absent_encoding_flags_no_column(n: EncodingNode, t: Seq<char>, names: Seq<Seq<char>>)
    requires
        !contains(n, t),
    ensures
        columns_with(n, t, names).len() == 0,
{
    first_struct_children_lie_within(n, t);
    let cs = first_struct_children(n);
    matching_columns_empty(names, cs, t, min_len(names.len() as int, cs.len() as int));
}

} // verus!
