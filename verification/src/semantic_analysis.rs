//! Semantic analysis: a single-pass walk over the syntax tree that
//! assigns scope keys to assignment targets and accumulates them into
//! one flat symbol table.
//!
//! Each top-level function owns the disjoint top-level scope slot given
//! by its source-order index.  Inside a block, nested blocks consume
//! sibling indices 0, 1, 2, … in source order while plain statements do
//! not, and every fragment produced for a statement is merged into the
//! enclosing accumulator with the later fragment winning.

use crate::ast::AstNode;
use crate::scope_key::ScopeKey;
use crate::symbol_table::{Entry, EntrySpec, SymbolMap, SymbolTable};
use vstd::pervasive::unreached;
use vstd::prelude::*;
use vstd::seq_lib::*;

verus! {

/// The placeholder type name recorded for every binding; this minimal
/// core stores a single entry kind, and a richer front end would extend
/// the entry payload, not the resolution algorithm.
pub open spec fn variable_type_label() -> Seq<char> {
    "Temporary Example Type"@
}

/// How many of the first `k` statements are nested blocks; the `k`-th
/// statement, if it is a block, is therefore the `blocks_before(s, k)`-th
/// sibling block of its scope.
pub open spec fn blocks_before(stmts: Seq<AstNode>, k: int) -> int
    decreases k,
{
    if k <= 0 {
        0
    } else {
        blocks_before(stmts, k - 1) + if stmts[k - 1] is Block {
            1int
        } else {
            0int
        }
    }
}

/// The scope key the `k`-th statement of a block is walked with: a
/// nested block enters the next sibling slot, a plain statement stays
/// in the enclosing scope.
pub open spec fn stmt_scope(stmts: Seq<AstNode>, scope: Seq<u8>, k: int) -> Seq<u8> {
    if stmts[k] is Block {
        scope.push(blocks_before(stmts, k) as u8)
    } else {
        scope
    }
}

/// The fragment contributed by a mutation target: a name binds at the
/// current scope with the placeholder entry kind.  A target that is not
/// a name is a structural error and is ruled out by well-formedness.
pub open spec fn target_binding(target: AstNode, scope: Seq<u8>) -> SymbolMap {
    match target {
        AstNode::Name(name) => Map::<(Seq<char>, Seq<u8>), EntrySpec>::empty().insert(
            (name@, scope),
            EntrySpec::Variable { data_type: variable_type_label() },
        ),
        _ => Map::empty(),
    }
}

/// The symbol-table fragment produced by walking one node at `scope`.
/// Only blocks and mutation targets contribute; declarations, nested
/// functions, bare names and literals contribute nothing in this core.
pub open spec fn walk_node(node: AstNode, scope: Seq<u8>) -> SymbolMap
    decreases node, 0int,
{
    match node {
        AstNode::Block(stmts) => walk_stmts(stmts@, scope, 0),
        AstNode::MutationExpression { target, .. } => target_binding(*target, scope),
        _ => Map::empty(),
    }
}

/// The fragment produced by the statements of a block from index `k`
/// on, merged left to right with the later statement winning.
pub open spec fn walk_stmts(stmts: Seq<AstNode>, scope: Seq<u8>, k: int) -> SymbolMap
    decreases stmts, stmts.len() - k,
{
    if 0 <= k < stmts.len() {
        walk_node(stmts[k], stmt_scope(stmts, scope, k)).union_prefer_right(
            walk_stmts(stmts, scope, k + 1),
        )
    } else {
        Map::empty()
    }
}

/// The fragment of the `index`-th top-level function: its body walked
/// under the scope key holding exactly that index.
pub open spec fn function_map(node: AstNode, index: int) -> SymbolMap {
    match node {
        AstNode::Function { body, .. } => walk_node(*body, seq![index as u8]),
        _ => Map::empty(),
    }
}

/// The table of the top-level functions from index `k` on.
pub open spec fn functions_map(root: Seq<AstNode>, k: int) -> SymbolMap
    decreases root.len() - k,
{
    if 0 <= k < root.len() {
        function_map(root[k], k).union_prefer_right(functions_map(root, k + 1))
    } else {
        Map::empty()
    }
}

/// The full symbol table of a program.
pub open spec fn program_map(root: Seq<AstNode>) -> SymbolMap {
    functions_map(root, 0)
}

/// Structural well-formedness of one node, as far as the walk reaches:
/// every mutation target is a name, and no scope holds more sibling
/// blocks than a scope-key index can count.
pub open spec fn wf_node(node: AstNode) -> bool
    decreases node, 0int,
{
    match node {
        AstNode::Block(stmts) => wf_stmts_from(stmts@, 0),
        AstNode::MutationExpression { target, .. } => *target is Name,
        _ => true,
    }
}

/// Well-formedness of the statements of a block from index `k` on.
pub open spec fn wf_stmts_from(stmts: Seq<AstNode>, k: int) -> bool
    decreases stmts, stmts.len() - k,
{
    if 0 <= k < stmts.len() {
        &&& wf_node(stmts[k])
        &&& (stmts[k] is Block ==> blocks_before(stmts, k) < 256)
        &&& wf_stmts_from(stmts, k + 1)
    } else {
        true
    }
}

/// Structural well-formedness of a whole program: every top-level node
/// is a function whose body is a well-formed block, and there are no
/// more functions than a scope-key index can count.
pub open spec fn wf_program(root: Seq<AstNode>) -> bool {
    &&& root.len() <= 256
    &&& forall|i: int|
        0 <= i < root.len() ==> ((#[trigger] root[i]) matches AstNode::Function { name: _, body }
            && *body is Block && wf_node(*body))
}

/// Decides [`wf_node`], so that an unverified caller can establish the
/// walker's precondition before building.
#[verifier::loop_isolation(false)]
pub fn well_formed_node(node: &AstNode) -> (b: bool)
    ensures
        b == wf_node(*node),
    decreases *node,
{
    match node {
        AstNode::Block(stmts) => {
            let mut i: usize = 0;
            let mut count: usize = 0;
            while i < stmts.len()
                invariant
                    i <= stmts@.len(),
                    count == blocks_before(stmts@, i as int),
                    count <= i,
                    wf_stmts_from(stmts@, 0) == wf_stmts_from(stmts@, i as int),
                decreases stmts@.len() - i,
            {
                let stmt = &stmts[i];
                proof {
                    assert(decreases_to!(*stmts => stmts@));
                    assert(decreases_to!(stmts@ => stmts@[i as int]));
                }
                if !well_formed_node(stmt) {
                    return false;
                }
                if matches!(stmt, AstNode::Block(_)) {
                    if count >= 256 {
                        return false;
                    }
                    count = count + 1;
                }
                i = i + 1;
            }
            true
        },
        AstNode::MutationExpression { target, .. } => match &**target {
            AstNode::Name(_) => true,
            _ => false,
        },
        _ => true,
    }
}

/// Decides [`wf_program`].
#[verifier::loop_isolation(false)]
pub fn well_formed_program(root: &Vec<AstNode>) -> (b: bool)
    ensures
        b == wf_program(root@),
{
    if root.len() > 256 {
        return false;
    }
    let mut i: usize = 0;
    while i < root.len()
        invariant
            i <= root@.len(),
            forall|j: int|
                0 <= j < i ==> ((#[trigger] root@[j]) matches AstNode::Function { name: _, body }
                    && *body is Block && wf_node(*body)),
        decreases root@.len() - i,
    {
        match &root[i] {
            AstNode::Function { name: _, body } => {
                match &**body {
                    AstNode::Block(_) => {},
                    _ => {
                        return false;
                    },
                }
                if !well_formed_node(body) {
                    return false;
                }
            },
            _ => {
                return false;
            },
        }
        i = i + 1;
    }
    true
}

/// Right-biased map union is associative, so merging fragments one at a
/// time equals merging them grouped.
proof fn lemma_union_assoc(a: SymbolMap, b: SymbolMap, c: SymbolMap)
    ensures
        a.union_prefer_right(b).union_prefer_right(c) == a.union_prefer_right(
            b.union_prefer_right(c),
        ),
{
    assert(a.union_prefer_right(b).union_prefer_right(c) =~= a.union_prefer_right(
        b.union_prefer_right(c),
    ));
}

/// Well-formedness from the start of a block reaches every later index.
proof fn lemma_wf_stmts_from_mono(stmts: Seq<AstNode>, j: int, k: int)
    requires
        wf_stmts_from(stmts, j),
        0 <= j <= k,
    ensures
        wf_stmts_from(stmts, k),
    decreases k - j,
{
    if j < k {
        lemma_wf_stmts_from_mono(stmts, j + 1, k);
    }
}

/// A sequence is a prefix of itself.
proof fn lemma_prefix_refl(s: Seq<u8>)
    ensures
        s.is_prefix_of(s),
{
    assert(s.subrange(0, s.len() as int) =~= s);
}

/// Appending an index keeps the original key a prefix.
proof fn lemma_prefix_push(s: Seq<u8>, x: u8)
    ensures
        s.is_prefix_of(s.push(x)),
{
    assert(s.push(x).subrange(0, s.len() as int) =~= s);
}

/// The prefix relation is transitive.
proof fn lemma_prefix_trans(a: Seq<u8>, b: Seq<u8>, c: Seq<u8>)
    requires
        a.is_prefix_of(b),
        b.is_prefix_of(c),
    ensures
        a.is_prefix_of(c),
{
    assert(a =~= c.subrange(0, a.len() as int)) by {
        assert(forall|t: int|
            0 <= t < a.len() ==> a[t] == b.subrange(0, a.len() as int)[t] && a[t] == b[t]);
        assert(forall|t: int|
            0 <= t < a.len() ==> b[t] == c.subrange(0, b.len() as int)[t] && b[t] == c[t]);
    }
}

/// Every key of a fragment produced by walking a node at `scope` lies
/// in that scope or deeper: `scope` is a prefix of the key's scope key.
proof fn lemma_walk_node_prefix(node: AstNode, scope: Seq<u8>)
    ensures
        forall|key: (Seq<char>, Seq<u8>)| #[trigger]
            walk_node(node, scope).dom().contains(key) ==> scope.is_prefix_of(key.1),
    decreases node, 0int,
{
    lemma_prefix_refl(scope);
    match node {
        AstNode::Block(stmts) => {
            lemma_walk_stmts_prefix(stmts@, scope, 0);
            assert forall|key: (Seq<char>, Seq<u8>)| #[trigger]
                walk_node(node, scope).dom().contains(key) implies scope.is_prefix_of(key.1) by {
                assert(walk_stmts(stmts@, scope, 0).dom().contains(key));
            }
        },
        _ => {},
    }
}

/// As [`lemma_walk_node_prefix`], for the statements of a block from
/// index `k` on.
proof fn lemma_walk_stmts_prefix(stmts: Seq<AstNode>, scope: Seq<u8>, k: int)
    ensures
        forall|key: (Seq<char>, Seq<u8>)| #[trigger]
            walk_stmts(stmts, scope, k).dom().contains(key) ==> scope.is_prefix_of(key.1),
    decreases stmts, stmts.len() - k,
{
    if 0 <= k < stmts.len() {
        let sc = stmt_scope(stmts, scope, k);
        lemma_walk_node_prefix(stmts[k], sc);
        lemma_walk_stmts_prefix(stmts, scope, k + 1);
        vstd::map_lib::lemma_union_dom(
            walk_node(stmts[k], sc),
            walk_stmts(stmts, scope, k + 1),
        );
        assert forall|key: (Seq<char>, Seq<u8>)| #[trigger]
            walk_stmts(stmts, scope, k).dom().contains(key) implies scope.is_prefix_of(
            key.1,
        ) by {
            if walk_node(stmts[k], sc).dom().contains(key) {
                if stmts[k] is Block {
                    lemma_prefix_push(scope, blocks_before(stmts, k) as u8);
                    lemma_prefix_trans(scope, sc, key.1);
                }
            }
        }
    }
}

/// Prefix-disjointness law: keys produced inside two distinct top-level
/// functions never coincide, and the scope key of one never
/// prefix-matches the scope key of the other, because each function
/// owns the top-level slot given by its source-order index.
pub proof fn lemma_prefix_disjointness(
    root: Seq<AstNode>,
    i: int,
    j: int,
    ki: (Seq<char>, Seq<u8>),
    kj: (Seq<char>, Seq<u8>),
)
    requires
        root.len() <= 256,
        0 <= i < root.len(),
        0 <= j < root.len(),
        i != j,
        function_map(root[i], i).dom().contains(ki),
        function_map(root[j], j).dom().contains(kj),
    ensures
        ki != kj,
        ki.1 != kj.1,
        !ki.1.is_prefix_of(kj.1),
{
    match root[i] {
        AstNode::Function { body, .. } => {
            lemma_walk_node_prefix(*body, seq![i as u8]);
            assert(walk_node(*body, seq![i as u8]).dom().contains(ki));
            assert(seq![i as u8].is_prefix_of(ki.1));
        },
        _ => {
            assert(false);
        },
    }
    match root[j] {
        AstNode::Function { body, .. } => {
            lemma_walk_node_prefix(*body, seq![j as u8]);
            assert(walk_node(*body, seq![j as u8]).dom().contains(kj));
            assert(seq![j as u8].is_prefix_of(kj.1));
        },
        _ => {
            assert(false);
        },
    }
    assert(ki.1[0] == i as u8) by {
        assert(seq![i as u8][0] == i as u8);
        assert(ki.1.subrange(0, 1)[0] == ki.1[0]);
    }
    assert(kj.1[0] == j as u8) by {
        assert(seq![j as u8][0] == j as u8);
        assert(kj.1.subrange(0, 1)[0] == kj.1[0]);
    }
    assert(i as u8 != j as u8) by {
        assert((i as u8) as int == i);
        assert((j as u8) as int == j);
    }
    if ki.1.is_prefix_of(kj.1) {
        assert(ki.1[0] == kj.1.subrange(0, ki.1.len() as int)[0]);
        assert(kj.1.subrange(0, ki.1.len() as int)[0] == kj.1[0]);
    }
}

/// Sibling numbering law: inside one block, the nested blocks are
/// walked with sibling indices that start at zero, grow strictly in
/// source order, and stay below the total number of nested blocks, no
/// matter how many plain statements stand between them — plain
/// statements never consume a sibling slot.
pub proof fn lemma_sibling_numbering(stmts: Seq<AstNode>, scope: Seq<u8>, k: int)
    requires
        0 <= k < stmts.len(),
        stmts[k] is Block,
    ensures
        stmt_scope(stmts, scope, k) == scope.push(blocks_before(stmts, k) as u8),
        0 <= blocks_before(stmts, k),
        blocks_before(stmts, k) < blocks_before(stmts, stmts.len() as int),
        forall|k2: int|
            k < k2 < stmts.len() && (#[trigger] stmts[k2]) is Block ==> blocks_before(stmts, k)
                < blocks_before(stmts, k2),
{
    lemma_blocks_before_mono(stmts, 0, k);
    lemma_blocks_before_mono(stmts, k + 1, stmts.len() as int);
    assert forall|k2: int|
        k < k2 < stmts.len() && (#[trigger] stmts[k2]) is Block implies blocks_before(stmts, k)
        < blocks_before(stmts, k2) by {
        lemma_blocks_before_mono(stmts, k + 1, k2);
    }
}

/// Sibling numbering is onto: every index below the total number of
/// nested blocks of a block is the sibling index of exactly the nested
/// block that is preceded by that many nested blocks.
pub proof fn lemma_sibling_numbering_onto(stmts: Seq<AstNode>, j: int)
    requires
        0 <= j < blocks_before(stmts, stmts.len() as int),
    ensures
        exists|k: int|
            0 <= k < stmts.len() && (#[trigger] stmts[k]) is Block && blocks_before(stmts, k)
                == j,
{
    lemma_sibling_numbering_onto_aux(stmts, j, stmts.len() as int);
}

/// Counting nested blocks over a longer statement prefix never counts
/// fewer.
proof fn lemma_blocks_before_mono(stmts: Seq<AstNode>, a: int, b: int)
    requires
        0 <= a <= b,
    ensures
        blocks_before(stmts, a) <= blocks_before(stmts, b),
    decreases b - a,
{
    if a < b {
        lemma_blocks_before_mono(stmts, a, b - 1);
    }
}

proof fn lemma_sibling_numbering_onto_aux(stmts: Seq<AstNode>, j: int, n: int)
    requires
        0 <= n <= stmts.len(),
        0 <= j < blocks_before(stmts, n),
    ensures
        exists|k: int|
            0 <= k < n && (#[trigger] stmts[k]) is Block && blocks_before(stmts, k) == j,
    decreases n,
{
    lemma_blocks_before_mono(stmts, 0, n);
    if blocks_before(stmts, n - 1) > j {
        lemma_sibling_numbering_onto_aux(stmts, j, n - 1);
    } else {
        assert(stmts[n - 1] is Block && blocks_before(stmts, n - 1) == j);
    }
}

/// Resolves a mutation target: a name yields the singleton fragment
/// binding it at the current scope.
fn evaluate(node: &AstNode, scope: &ScopeKey) -> (t: SymbolTable)
    requires
        *node is Name,
    ensures
        t@ == target_binding(*node, scope@),
{
    match node {
        AstNode::Name(name) => SymbolTable::from(
            name.clone(),
            scope.clone(),
            Entry::Variable { data_type: String::from_str("Temporary Example Type") },
        ),
        _ => unreached(),
    }
}

/// Walks one node, producing its symbol-table fragment.
#[verifier::loop_isolation(false)]
fn traverse(node: &AstNode, scope: &ScopeKey) -> (t: SymbolTable)
    requires
        wf_node(*node),
    ensures
        t@ == walk_node(*node, scope@),
    decreases *node,
{
    match node {
        AstNode::Block(stmts) => {
            let mut table = SymbolTable::new();
            let mut i: usize = 0;
            let mut counter: usize = 0;
            proof {
                assert(table@.union_prefer_right(walk_stmts(stmts@, scope@, 0)) =~= walk_stmts(
                    stmts@,
                    scope@,
                    0,
                ));
            }
            while i < stmts.len()
                invariant
                    i <= stmts@.len(),
                    counter == blocks_before(stmts@, i as int),
                    counter <= i,
                    table@.union_prefer_right(walk_stmts(stmts@, scope@, i as int)) == walk_stmts(
                        stmts@,
                        scope@,
                        0,
                    ),
                decreases stmts@.len() - i,
            {
                let stmt = &stmts[i];
                proof {
                    assert(decreases_to!(*stmts => stmts@));
                    assert(decreases_to!(stmts@ => stmts@[i as int]));
                    lemma_wf_stmts_from_mono(stmts@, 0, i as int);
                }
                let ghost table_before = table@;
                let frag = match stmt {
                    AstNode::Block(_) => {
                        let t = traverse(stmt, &scope.push(counter as u8));
                        counter = counter + 1;
                        t
                    },
                    _ => traverse(stmt, scope),
                };
                proof {
                    assert(frag@ == walk_node(stmts@[i as int], stmt_scope(stmts@, scope@, i as int)));
                }
                table.merge(frag);
                proof {
                    lemma_union_assoc(
                        table_before,
                        walk_node(stmts@[i as int], stmt_scope(stmts@, scope@, i as int)),
                        walk_stmts(stmts@, scope@, i as int + 1),
                    );
                }
                i = i + 1;
            }
            proof {
                assert(table@.union_prefer_right(walk_stmts(stmts@, scope@, i as int)) =~= table@);
            }
            table
        },
        AstNode::MutationExpression { target, .. } => evaluate(&**target, scope),
        _ => SymbolTable::new(),
    }
}

/// Builds the symbol table of a whole program: each top-level function
/// is walked under its own top-level scope slot and the per-function
/// fragments are merged in source order.  A structurally invalid tree
/// is ruled out by the precondition; unverified callers establish it
/// with [`well_formed_program`] and abort the build otherwise.
#[verifier::loop_isolation(false)]
pub fn semantic_analisis(root: Vec<AstNode>) -> (t: SymbolTable)
    requires
        wf_program(root@),
    ensures
        t@ == program_map(root@),
{
    let mut table = SymbolTable::new();
    let mut index: usize = 0;
    proof {
        assert(table@.union_prefer_right(functions_map(root@, 0)) =~= functions_map(root@, 0));
    }
    while index < root.len()
        invariant
            index <= root@.len(),
            table@.union_prefer_right(functions_map(root@, index as int)) == functions_map(
                root@,
                0,
            ),
        decreases root@.len() - index,
    {
        let ghost table_before = table@;
        match &root[index] {
            AstNode::Function { name: _, body } => {
                let mut slot: Vec<u8> = Vec::new();
                slot.push(index as u8);
                let scope = ScopeKey::from(slot);
                proof {
                    assert(scope@ =~= seq![index as u8]);
                }
                let frag = traverse(&**body, &scope);
                table.merge(frag);
                proof {
                    assert(frag@ == function_map(root@[index as int], index as int));
                    lemma_union_assoc(
                        table_before,
                        function_map(root@[index as int], index as int),
                        functions_map(root@, index as int + 1),
                    );
                }
            },
            _ => {
                proof {
                    assert(root@[index as int] matches AstNode::Function { .. });
                }
                unreached()
            },
        }
        index = index + 1;
    }
    proof {
        assert(table@.union_prefer_right(functions_map(root@, index as int)) =~= table@);
    }
    table
}

} // verus!
