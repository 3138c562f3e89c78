use vstd::prelude::*;

use crate::alg::Alg;
use crate::alg::Move;
use crate::alg::MoveView;
use crate::alg::view::invert_move_view;
use crate::kpuzzle::definition::KPuzzleDefinition;
use crate::kpuzzle::definition::KTransformationData;
use crate::kpuzzle::definition::derived_table_lookup;
use crate::kpuzzle::definition::move_table_lookup;

verus! {

/// How one move resolves against a definition's tables: to a primitive
/// entry, to a derived entry, or not at all. The relative amount is what
/// the found transformation must be raised to.
pub enum MoveResolution {
    Primitive { index: int, relative_amount: int },
    Derived { index: int, relative_amount: int },
    Unresolvable,
}

/// The move value at amount 1 with the same identity.
pub open spec fn with_amount_1(key: MoveView) -> MoveView {
    MoveView { quantum: key.quantum, amount: 1 }
}

/// The derived-table entry for a key, if the definition has a derived
/// table and it holds the key.
pub open spec fn derived_lookup(def: KPuzzleDefinition, key: MoveView) -> Option<int> {
    match def.derived_moves {
        Some(derived) => derived_table_lookup(derived@, key),
        None => None,
    }
}

/// Resolution order for a requested move: the amount-1 identity in the
/// primitive table, then in the derived table, at the requested amount;
/// then the exact move (identity and amount) in either table, at relative
/// amount 1; then the exact inverse in either table, at relative
/// amount -1.
pub open spec fn resolve_move(def: KPuzzleDefinition, key: MoveView) -> MoveResolution {
    let a1 = with_amount_1(key);
    match move_table_lookup(def.moves@, a1) {
        Some(i) => MoveResolution::Primitive { index: i, relative_amount: key.amount },
        None => match derived_lookup(def, a1) {
            Some(i) => MoveResolution::Derived { index: i, relative_amount: key.amount },
            None => match move_table_lookup(def.moves@, key) {
                Some(i) => MoveResolution::Primitive { index: i, relative_amount: 1 },
                None => match derived_lookup(def, key) {
                    Some(i) => MoveResolution::Derived { index: i, relative_amount: 1 },
                    None => match move_table_lookup(def.moves@, invert_move_view(key)) {
                        Some(i) => MoveResolution::Primitive { index: i, relative_amount: -1 },
                        None => match derived_lookup(def, invert_move_view(key)) {
                            Some(i) => MoveResolution::Derived { index: i, relative_amount: -1 },
                            None => MoveResolution::Unresolvable,
                        },
                    },
                },
            },
        },
    }
}

pub proof fn move_table_lookup_props(entries: Seq<(Move, KTransformationData)>, key: MoveView)
    ensures
        move_table_lookup(entries, key) matches Some(i) ==> 0 <= i < entries.len()
            && entries[i].0@ == key,
        move_table_lookup(entries, key) is None ==> forall|j: int|
            0 <= j < entries.len() ==> (#[trigger] entries[j].0)@ != key,
    decreases entries.len(),
{
    if entries.len() > 0 {
        move_table_lookup_props(entries.drop_first(), key);
        assert(forall|j: int|
            1 <= j < entries.len() ==> (#[trigger] entries[j]) == entries.drop_first()[j - 1]);
    }
}

pub proof fn move_table_lookup_first(
    entries: Seq<(Move, KTransformationData)>,
    key: MoveView,
    i: int,
)
    requires
        0 <= i < entries.len(),
        entries[i].0@ == key,
        forall|j: int| 0 <= j < i ==> (#[trigger] entries[j].0)@ != key,
    ensures
        move_table_lookup(entries, key) == Some(i),
    decreases i,
{
    if i > 0 {
        move_table_lookup_first(entries.drop_first(), key, i - 1);
    }
}

pub proof fn derived_table_lookup_props(entries: Seq<(Move, Alg)>, key: MoveView)
    ensures
        derived_table_lookup(entries, key) matches Some(i) ==> 0 <= i < entries.len()
            && entries[i].0@ == key,
        derived_table_lookup(entries, key) is None ==> forall|j: int|
            0 <= j < entries.len() ==> (#[trigger] entries[j].0)@ != key,
    decreases entries.len(),
{
    if entries.len() > 0 {
        derived_table_lookup_props(entries.drop_first(), key);
        assert(forall|j: int|
            1 <= j < entries.len() ==> (#[trigger] entries[j]) == entries.drop_first()[j - 1]);
    }
}

pub proof fn derived_table_lookup_first(entries: Seq<(Move, Alg)>, key: MoveView, i: int)
    requires
        0 <= i < entries.len(),
        entries[i].0@ == key,
        forall|j: int| 0 <= j < i ==> (#[trigger] entries[j].0)@ != key,
    ensures
        derived_table_lookup(entries, key) == Some(i),
    decreases i,
{
    if i > 0 {
        derived_table_lookup_first(entries.drop_first(), key, i - 1);
    }
}

/// No table entry can have an amount outside `i32`'s range, so a key
/// outside it never matches.
pub proof fn move_table_lookup_out_of_range(entries: Seq<(Move, KTransformationData)>, key: MoveView)
    requires
        key.amount > i32::MAX,
    ensures
        move_table_lookup(entries, key) is None,
{
    move_table_lookup_props(entries, key);
    match move_table_lookup(entries, key) {
        Some(i) => {
            assert(entries[i].0@.amount <= i32::MAX);
        },
        None => {
        },
    }
}

pub proof fn derived_table_lookup_out_of_range(entries: Seq<(Move, Alg)>, key: MoveView)
    requires
        key.amount > i32::MAX,
    ensures
        derived_table_lookup(entries, key) is None,
{
    derived_table_lookup_props(entries, key);
    match derived_table_lookup(entries, key) {
        Some(i) => {
            assert(entries[i].0@.amount <= i32::MAX);
        },
        None => {
        },
    }
}

/// Finds the first primitive-table entry whose key is the same move value.
fn find_in_move_table<'a>(entries: &'a Vec<(Move, KTransformationData)>, key: &Move) -> (r: Option<
    usize,
>)
    ensures
        r matches Some(i) ==> move_table_lookup(entries@, key@) == Some(i as int) && (i as int)
            < entries@.len(),
        r is None ==> move_table_lookup(entries@, key@) is None,
{
    let n = entries.len();
    let mut k: usize = 0;
    while k < n
        invariant
            0 <= k <= n,
            n == entries@.len(),
            forall|j: int| 0 <= j < k as int ==> (#[trigger] entries@[j].0)@ != key@,
        decreases n - k,
    {
        if entries[k].0.matches(key) {
            proof {
                move_table_lookup_first(entries@, key@, k as int);
            }
            return Some(k);
        }
        k = k + 1;
    }
    proof {
        move_table_lookup_props(entries@, key@);
        match move_table_lookup(entries@, key@) {
            Some(i) => {
                assert((entries@[i].0)@ != key@);
            },
            None => {
            },
        }
    }
    None
}

/// Finds the first derived-table entry whose key is the same move value.
fn find_in_derived_table<'a>(entries: &'a Vec<(Move, Alg)>, key: &Move) -> (r: Option<usize>)
    ensures
        r matches Some(i) ==> derived_table_lookup(entries@, key@) == Some(i as int) && (i as int)
            < entries@.len(),
        r is None ==> derived_table_lookup(entries@, key@) is None,
{
    let n = entries.len();
    let mut k: usize = 0;
    while k < n
        invariant
            0 <= k <= n,
            n == entries@.len(),
            forall|j: int| 0 <= j < k as int ==> (#[trigger] entries@[j].0)@ != key@,
        decreases n - k,
    {
        if entries[k].0.matches(key) {
            proof {
                derived_table_lookup_first(entries@, key@, k as int);
            }
            return Some(k);
        }
        k = k + 1;
    }
    proof {
        derived_table_lookup_props(entries@, key@);
        match derived_table_lookup(entries@, key@) {
            Some(i) => {
                assert((entries@[i].0)@ != key@);
            },
            None => {
            },
        }
    }
    None
}

/// A resolution with the table indices exposed: `(true, i, rel)` for entry
/// `i` of the derived table, `(false, i, rel)` for entry `i` of the
/// primitive table, each to be raised to `rel`.
pub(crate) fn lookup_move_indexed(def: &KPuzzleDefinition, key_move: &Move) -> (r: Option<
    (bool, usize, i32),
>)
    ensures
        r matches Some((is_derived, i, rel)) ==> if is_derived {
            &&& resolve_move(*def, key_move@) == (MoveResolution::Derived {
                index: i as int,
                relative_amount: rel as int,
            })
            &&& def.derived_moves matches Some(d) && (i as int) < d@.len()
        } else {
            &&& resolve_move(*def, key_move@) == (MoveResolution::Primitive {
                index: i as int,
                relative_amount: rel as int,
            })
            &&& (i as int) < def.moves@.len()
        },
        r is None ==> resolve_move(*def, key_move@) == MoveResolution::Unresolvable,
{
    let amount_1 = Move { quantum: key_move.quantum.clone(), amount: 1 };
    if let Some(i) = find_in_move_table(&def.moves, &amount_1) {
        return Some((false, i, key_move.amount));
    }
    if let Some(derived) = &def.derived_moves {
        if let Some(i) = find_in_derived_table(derived, &amount_1) {
            return Some((true, i, key_move.amount));
        }
    }
    if let Some(i) = find_in_move_table(&def.moves, key_move) {
        return Some((false, i, 1));
    }
    if let Some(derived) = &def.derived_moves {
        if let Some(i) = find_in_derived_table(derived, key_move) {
            return Some((true, i, 1));
        }
    }
    if key_move.amount > i32::MIN {
        let inverse = key_move.invert();
        if let Some(i) = find_in_move_table(&def.moves, &inverse) {
            return Some((false, i, -1));
        }
        if let Some(derived) = &def.derived_moves {
            if let Some(i) = find_in_derived_table(derived, &inverse) {
                return Some((true, i, -1));
            }
        }
    } else {
        proof {
            let inv = invert_move_view(key_move@);
            if inv == key_move@ {
            } else {
                assert(inv.amount > i32::MAX);
                move_table_lookup_out_of_range(def.moves@, inv);
                match &def.derived_moves {
                    Some(d) => {
                        derived_table_lookup_out_of_range(d@, inv);
                    },
                    None => {
                    },
                }
            }
        }
    }
    None
}

} // verus!
