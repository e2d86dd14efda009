//! The type graph read out of DWARF and the bounded size resolution on it.

use std::collections::HashMap;
use vstd::prelude::*;

verus! {

broadcast use vstd::std_specs::hash::group_hash_axioms;

/// How many hops a size resolution follows before it gives up.
pub const MAX_HOPS: usize = 10;

/// One type entry of the graph, keyed elsewhere by its debug-info offset.
#[derive(Clone, Copy, Debug, PartialEq, Eq, Structural)]
pub enum TypeNode {
    Base { byte_size: usize },
    Struct { byte_size: usize },
    Union { byte_size: usize },
    Pointer { byte_size: usize },
    Enum { byte_size: usize },
    TypeDef { type_id: usize },
    Const { type_id: usize },
    Array { type_id: usize, count: usize },
}

/// The stored byte size of a leaf node; `None` for nodes that refer onwards.
pub open spec fn leaf_size(n: TypeNode) -> Option<nat> {
    match n {
        TypeNode::Base { byte_size } => Some(byte_size as nat),
        TypeNode::Struct { byte_size } => Some(byte_size as nat),
        TypeNode::Union { byte_size } => Some(byte_size as nat),
        TypeNode::Pointer { byte_size } => Some(byte_size as nat),
        TypeNode::Enum { byte_size } => Some(byte_size as nat),
        _ => None,
    }
}

/// Size of `count` values of type `id`, following typedef, const and array
/// links; `hops` links have been followed already.  Unknown ids and chains
/// longer than `MAX_HOPS` give 0.
pub open spec fn size_walk(nodes: Map<usize, TypeNode>, id: usize, count: nat, hops: nat) -> nat
    decreases MAX_HOPS - hops,
{
    if hops >= MAX_HOPS || !nodes.contains_key(id) {
        0
    } else {
        match nodes[id] {
            TypeNode::TypeDef { type_id } => size_walk(nodes, type_id, count, hops + 1),
            TypeNode::Const { type_id } => size_walk(nodes, type_id, count, hops + 1),
            TypeNode::Array { type_id, count: c } => size_walk(
                nodes,
                type_id,
                count * (c as nat),
                hops + 1,
            ),
            _ => count * leaf_size(nodes[id])->Some_0,
        }
    }
}

/// The resolved byte size of type `id`.
pub open spec fn type_size(nodes: Map<usize, TypeNode>, id: usize) -> nat {
    size_walk(nodes, id, 1, 0)
}

/// A size as a `usize`: sizes that do not fit are reported as 0, like
/// sizes that cannot be resolved.
pub open spec fn fit_size(n: nat) -> usize {
    if n <= usize::MAX {
        n as usize
    } else {
        0
    }
}

/// The walk scales with the count it starts from.
pub proof fn lemma_size_walk_scales(nodes: Map<usize, TypeNode>, id: usize, count: nat, hops: nat)
    ensures
        size_walk(nodes, id, count, hops) == count * size_walk(nodes, id, 1, hops),
    decreases MAX_HOPS - hops,
{
    if hops >= MAX_HOPS || !nodes.contains_key(id) {
        assert(count * 0 == 0) by (nonlinear_arith);
    } else {
        match nodes[id] {
            TypeNode::TypeDef { type_id } => {
                lemma_size_walk_scales(nodes, type_id, count, hops + 1);
            },
            TypeNode::Const { type_id } => {
                lemma_size_walk_scales(nodes, type_id, count, hops + 1);
            },
            TypeNode::Array { type_id, count: c } => {
                lemma_size_walk_scales(nodes, type_id, count * (c as nat), hops + 1);
                lemma_size_walk_scales(nodes, type_id, c as nat, hops + 1);
                let x = size_walk(nodes, type_id, 1, hops + 1);
                assert(count * (c as nat) * x == count * ((c as nat) * x)) by (nonlinear_arith);
            },
            _ => {
                let v = leaf_size(nodes[id])->Some_0;
                assert(count * v == count * (1 * v)) by (nonlinear_arith);
            },
        }
    }
}

/// A walk started from a count beyond `usize::MAX` resolves to 0 or to a
/// size beyond `usize::MAX`.
proof fn lemma_large_count(nodes: Map<usize, TypeNode>, id: usize, count: nat, hops: nat)
    requires
        count > usize::MAX,
    ensures
        fit_size(size_walk(nodes, id, count, hops)) == 0,
{
    lemma_size_walk_scales(nodes, id, count, hops);
    let x = size_walk(nodes, id, 1, hops);
    if x > 0 {
        assert(count * x >= count) by (nonlinear_arith)
            requires
                x > 0,
        ;
    } else {
        assert(count * x == 0) by (nonlinear_arith)
            requires
                x == 0,
        ;
    }
}

/// Resolves the byte size of type `id` in `nodes`: a leaf's stored size,
/// multiplied by the element counts of the arrays on the way, after at
/// most `MAX_HOPS` links.
pub fn get_type_size(id: usize, nodes: &HashMap<usize, TypeNode>) -> (r: usize)
    ensures
        r == fit_size(type_size(nodes@, id)),
{
    let mut cur = id;
    let mut count: usize = 1;
    let mut hops: usize = 0;
    while hops < MAX_HOPS
        invariant
            hops <= MAX_HOPS,
            size_walk(nodes@, cur, count as nat, hops as nat) == type_size(nodes@, id),
        decreases MAX_HOPS - hops,
    {
        match nodes.get(&cur) {
            None => {
                return 0;
            },
            Some(node) => {
                match *node {
                    TypeNode::TypeDef { type_id } => {
                        cur = type_id;
                    },
                    TypeNode::Const { type_id } => {
                        cur = type_id;
                    },
                    TypeNode::Array { type_id, count: c } => {
                        match count.checked_mul(c) {
                            None => {
                                proof {
                                    lemma_large_count(
                                        nodes@,
                                        type_id,
                                        count as nat * c as nat,
                                        (hops + 1) as nat,
                                    );
                                }
                                return 0;
                            },
                            Some(n) => {
                                count = n;
                                cur = type_id;
                            },
                        }
                    },
                    TypeNode::Base { byte_size }
                    | TypeNode::Struct { byte_size }
                    | TypeNode::Union { byte_size }
                    | TypeNode::Pointer { byte_size }
                    | TypeNode::Enum { byte_size } => {
                        return match count.checked_mul(byte_size) {
                            None => 0,
                            Some(n) => n,
                        };
                    },
                }
            },
        }
        hops = hops + 1;
    }
    0
}


/// Whether `ids` is closed under typedef and const links: each of them is
/// a typedef or const entry whose target is in `ids` again.
pub open spec fn closed_alias_set(nodes: Map<usize, TypeNode>, ids: Set<usize>) -> bool {
    forall|x: usize|
        #![trigger ids.contains(x)]
        ids.contains(x) ==> nodes.contains_key(x) && match nodes[x] {
            TypeNode::TypeDef { type_id } => ids.contains(type_id),
            TypeNode::Const { type_id } => ids.contains(type_id),
            _ => false,
        }
}

/// Cycle guard: a type whose typedef and const links only ever lead to
/// other such links (a cycle among them, say) resolves to size 0.
pub proof fn lemma_alias_cycle_size_zero(nodes: Map<usize, TypeNode>, ids: Set<usize>, id: usize)
    requires
        closed_alias_set(nodes, ids),
        ids.contains(id),
    ensures
        type_size(nodes, id) == 0,
{
    lemma_alias_walk_zero(nodes, ids, id, 1, 0);
}

proof fn lemma_alias_walk_zero(nodes: Map<usize, TypeNode>, ids: Set<usize>, id: usize, count: nat, hops: nat)
    requires
        closed_alias_set(nodes, ids),
        ids.contains(id),
    ensures
        size_walk(nodes, id, count, hops) == 0,
    decreases MAX_HOPS - hops,
{
    if hops < MAX_HOPS {
        match nodes[id] {
            TypeNode::TypeDef { type_id } => lemma_alias_walk_zero(nodes, ids, type_id, count, hops + 1),
            TypeNode::Const { type_id } => lemma_alias_walk_zero(nodes, ids, type_id, count, hops + 1),
            _ => {},
        }
    }
}

} // verus!
