//! The symbol table: a flat mapping from (name, scope key) pairs to
//! entries, with nearest-enclosing-scope lookup and right-biased merge.
//!
//! Ancestry is encoded in the scope key itself, so lookup never needs a
//! scope tree: it truncates the query key one index at a time until a
//! binding is found or the global scope has been tried.

use crate::scope_key::ScopeKey;
use vstd::prelude::*;

verus! {

/// The mathematical model of a symbol table: a map from
/// (identifier characters, scope key indices) to entry models.
pub type SymbolMap = Map<(Seq<char>, Seq<u8>), EntrySpec>;

/// The model of an [`Entry`]: the same variants over mathematical
/// sequences instead of heap strings.
pub ghost enum EntrySpec {
    Variable { data_type: Seq<char> },
    NullEntry,
}

/// The payload stored per table key.
///
/// `Variable` is the one real entry kind of this core; `NullEntry` is
/// the not-found sentinel that lookup returns, and is never stored.
#[derive(Debug)]
pub enum Entry {
    Variable { data_type: String },
    NullEntry,
}

impl View for Entry {
    type V = EntrySpec;

    open spec fn view(&self) -> EntrySpec {
        match self {
            Entry::Variable { data_type } => EntrySpec::Variable { data_type: data_type@ },
            Entry::NullEntry => EntrySpec::NullEntry,
        }
    }
}

impl Clone for Entry {
    fn clone(&self) -> (r: Entry)
        ensures
            r@ == self@,
    {
        match self {
            Entry::Variable { data_type } => Entry::Variable { data_type: data_type.clone() },
            Entry::NullEntry => Entry::NullEntry,
        }
    }
}

/// The unique lookup key of one binding: an identifier together with
/// the key of the exact scope it is bound in.
#[derive(PartialEq, Eq, Hash, Debug)]
pub struct TableKey {
    name: String,
    scope_key: ScopeKey,
}

impl View for TableKey {
    type V = (Seq<char>, Seq<u8>);

    closed spec fn view(&self) -> (Seq<char>, Seq<u8>) {
        (self.name@, self.scope_key@)
    }
}

/// All symbol and scope information produced by one build: a mapping
/// from [`TableKey`] to [`Entry`], frozen once the tree walk returns.
#[derive(Debug)]
pub struct SymbolTable {
    table: Vec<(TableKey, Entry)>,
}

/// The map denoted by a sequence of recorded bindings; a binding
/// recorded later overwrites an earlier one with the same key.
spec fn table_map(s: Seq<(TableKey, Entry)>) -> SymbolMap
    decreases s.len(),
{
    if s.len() == 0 {
        Map::empty()
    } else {
        table_map(s.drop_last()).insert(s.last().0@, s.last().1@)
    }
}

impl View for SymbolTable {
    type V = SymbolMap;

    closed spec fn view(&self) -> SymbolMap {
        table_map(self.table@)
    }
}

/// Nearest-enclosing-scope resolution over the model map: try the exact
/// key first, then truncate the scope key one index at a time; an
/// exhausted (global) scope yields the `NullEntry` sentinel.
pub open spec fn lookup_spec(m: SymbolMap, name: Seq<char>, scope: Seq<u8>) -> EntrySpec
    decreases scope.len(),
{
    if m.contains_key((name, scope)) {
        m[(name, scope)]
    } else if scope.len() == 0 {
        EntrySpec::NullEntry
    } else {
        lookup_spec(m, name, scope.drop_last())
    }
}

/// The entries recorded after index `i` never use key `key`.
spec fn no_match_from(s: Seq<(TableKey, Entry)>, key: (Seq<char>, Seq<u8>), i: int) -> bool {
    forall|j: int| i <= j < s.len() ==> (#[trigger] s[j].0)@ != key
}

/// If the binding at index `i` is the last one with its key, the map
/// holds exactly that binding's entry at that key.
proof fn lemma_table_map_last_match(s: Seq<(TableKey, Entry)>, i: int)
    requires
        0 <= i < s.len(),
        no_match_from(s, s[i].0@, i + 1),
    ensures
        table_map(s).contains_key(s[i].0@),
        table_map(s)[s[i].0@] == s[i].1@,
    decreases s.len(),
{
    if i == s.len() - 1 {
        assert(s.last() == s[i]);
    } else {
        let sp = s.drop_last();
        assert(sp[i] == s[i]);
        assert(no_match_from(sp, sp[i].0@, i + 1));
        lemma_table_map_last_match(sp, i);
        assert(s.last() == s[s.len() - 1]);
        assert(s.last().0@ != s[i].0@);
    }
}

/// A key absent from every recorded binding is absent from the map.
proof fn lemma_table_map_no_match(s: Seq<(TableKey, Entry)>, key: (Seq<char>, Seq<u8>))
    requires
        no_match_from(s, key, 0),
    ensures
        !table_map(s).contains_key(key),
    decreases s.len(),
{
    if s.len() > 0 {
        let sp = s.drop_last();
        assert(no_match_from(sp, key, 0));
        lemma_table_map_no_match(sp, key);
        assert(s.last() == s[s.len() - 1]);
    }
}

/// Concatenating recorded bindings unions the denoted maps, the later
/// bindings winning.
proof fn lemma_table_map_append(s1: Seq<(TableKey, Entry)>, s2: Seq<(TableKey, Entry)>)
    ensures
        table_map(s1 + s2) == table_map(s1).union_prefer_right(table_map(s2)),
    decreases s2.len(),
{
    if s2.len() == 0 {
        assert(s1 + s2 =~= s1);
        assert(table_map(s1).union_prefer_right(table_map(s2)) =~= table_map(s1));
    } else {
        let s2p = s2.drop_last();
        lemma_table_map_append(s1, s2p);
        assert((s1 + s2).drop_last() =~= s1 + s2p);
        assert((s1 + s2).last() == s2.last());
        vstd::map_lib::lemma_union_insert_right(
            table_map(s1),
            table_map(s2p),
            s2.last().0@,
            s2.last().1@,
        );
    }
}

/// Lookup correctness, positive direction: a name bound at a scope is
/// found by a lookup at that exact scope, and a lookup from any
/// directly nested scope that does not shadow it falls back to the same
/// binding — inner scopes see outer bindings.
pub proof fn lemma_lookup_positive(m: SymbolMap, name: Seq<char>, scope: Seq<u8>, index: u8)
    requires
        m.contains_key((name, scope)),
    ensures
        lookup_spec(m, name, scope) == m[(name, scope)],
        !m.contains_key((name, scope.push(index))) ==> lookup_spec(m, name, scope.push(index))
            == m[(name, scope)],
{
    assert(scope.push(index).drop_last() =~= scope);
}

/// Lookup correctness, negative direction: a name with no binding at
/// the global scope resolves to the sentinel when queried there.
pub proof fn lemma_lookup_global_miss(m: SymbolMap, name: Seq<char>)
    requires
        !m.contains_key((name, Seq::<u8>::empty())),
    ensures
        lookup_spec(m, name, Seq::<u8>::empty()) == EntrySpec::NullEntry,
{
}

/// Shadowing: a name bound both at `[0]` and at the nested scope
/// `[0, 1]` resolves to the nested binding inside `[0, 1]`, while the
/// sibling scope `[0, 2]`, holding no binding of its own, still sees
/// the outer `[0]` binding.
pub proof fn lemma_shadowing(m: SymbolMap, name: Seq<char>)
    requires
        m.contains_key((name, seq![0u8])),
        m.contains_key((name, seq![0u8, 1u8])),
        !m.contains_key((name, seq![0u8, 2u8])),
    ensures
        lookup_spec(m, name, seq![0u8, 1u8]) == m[(name, seq![0u8, 1u8])],
        lookup_spec(m, name, seq![0u8, 2u8]) == m[(name, seq![0u8])],
{
    assert(seq![0u8, 2u8].drop_last() =~= seq![0u8]);
    assert(lookup_spec(m, name, seq![0u8]) == m[(name, seq![0u8])]);
}

/// Merging fragments with disjoint key sets loses nothing and does not
/// depend on the merge order: an exact-key lookup in the merged table
/// equals the lookup in whichever fragment holds the key, and merging a
/// fragment with itself changes nothing.
pub proof fn lemma_merge_disjoint(m1: SymbolMap, m2: SymbolMap, name: Seq<char>, scope: Seq<u8>)
    requires
        m1.dom().disjoint(m2.dom()),
    ensures
        m1.union_prefer_right(m2) == m2.union_prefer_right(m1),
        m1.union_prefer_right(m1) == m1,
        m1.contains_key((name, scope)) ==> lookup_spec(
            m1.union_prefer_right(m2),
            name,
            scope,
        ) == m1[(name, scope)],
        m2.contains_key((name, scope)) ==> lookup_spec(
            m1.union_prefer_right(m2),
            name,
            scope,
        ) == m2[(name, scope)],
{
    assert(m1.union_prefer_right(m2) =~= m2.union_prefer_right(m1));
    assert(m1.union_prefer_right(m1) =~= m1);
}

impl SymbolTable {
    /// The empty table.
    pub fn new() -> (t: SymbolTable)
        ensures
            t@ == Map::<(Seq<char>, Seq<u8>), EntrySpec>::empty(),
    {
        SymbolTable { table: Vec::new() }
    }

    /// A table holding the single binding of `name` at `scope`.
    pub fn from(name: String, scope: ScopeKey, entry: Entry) -> (t: SymbolTable)
        ensures
            t@ == Map::<(Seq<char>, Seq<u8>), EntrySpec>::empty().insert(
                (name@, scope@),
                entry@,
            ),
    {
        let mut t = SymbolTable::new();
        t.insert(name, scope, entry);
        t
    }

    /// Records `entry` for the exact pair `(name, scope)`, overwriting
    /// any entry already recorded for that pair.  Checking that a
    /// declaration does not collide is the caller's responsibility.
    pub fn insert(&mut self, name: String, scope: ScopeKey, entry: Entry)
        ensures
            final(self)@ == old(self)@.insert((name@, scope@), entry@),
    {
        let ghost s = self.table@;
        let key = TableKey { name, scope_key: scope };
        self.table.push((key, entry));
        proof {
            assert(self.table@.drop_last() =~= s);
        }
    }

    /// Unions another table's bindings into `self`; on a key collision
    /// the incoming binding wins.  In a correct one-pass build colliding
    /// keys never carry different declarations, so the policy only
    /// matters for genuine redeclarations.
    pub fn merge(&mut self, other: SymbolTable)
        ensures
            final(self)@ == old(self)@.union_prefer_right(other@),
    {
        let ghost s1 = self.table@;
        let ghost s2 = other.table@;
        let mut other = other;
        self.table.append(&mut other.table);
        proof {
            lemma_table_map_append(s1, s2);
        }
    }

    /// Returns the entry of the last recorded binding for the exact
    /// pair `(name, scope)`, if any binding for it exists.
    fn find_exact(&self, name: &String, scope: &ScopeKey) -> (r: Option<Entry>)
        ensures
            match r {
                Some(e) => self@.contains_key((name@, scope@)) && e@ == self@[(name@, scope@)],
                None => !self@.contains_key((name@, scope@)),
            },
    {
        let ghost key: (Seq<char>, Seq<u8>) = (name@, scope@);
        let mut i = self.table.len();
        while i > 0
            invariant
                i <= self.table@.len(),
                key == (name@, scope@),
                no_match_from(self.table@, key, i as int),
            decreases i,
        {
            i = i - 1;
            let hit = &self.table[i];
            if hit.0.name == *name && hit.0.scope_key == *scope {
                proof {
                    assert(hit.0@ == key);
                    lemma_table_map_last_match(self.table@, i as int);
                }
                return Some(hit.1.clone());
            }
        }
        proof {
            lemma_table_map_no_match(self.table@, key);
        }
        None
    }

    /// Resolves `name` as seen from the scope `scope_key`: the binding
    /// of the nearest enclosing scope that has one, or the `NullEntry`
    /// sentinel if no ancestor scope down to the global one binds the
    /// name.  Returning the sentinel is not an error of this layer; a
    /// caller distinguishes "undeclared" by inspecting it.
    pub fn check(&self, name: String, scope_key: ScopeKey) -> (r: Entry)
        ensures
            r@ == lookup_spec(self@, name@, scope_key@),
    {
        let ghost query = scope_key@;
        let mut scope = scope_key;
        loop
            invariant
                query == scope_key@,
                lookup_spec(self@, name@, scope@) == lookup_spec(self@, name@, query),
            decreases scope@.len(),
        {
            match self.find_exact(&name, &scope) {
                Some(e) => {
                    return e;
                },
                None => {
                    if scope.is_empty() {
                        return Entry::NullEntry;
                    }
                    scope = scope.pop();
                },
            }
        }
    }
}

} // verus!