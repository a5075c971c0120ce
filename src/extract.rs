//! Coordinates that an executable document references, read against an
//! index.
use vstd::prelude::*;
use vstd::string::StringExecFns;
use crate::ast::{named_type, Definition, OperationKind, Operation, Selection, TypeRef};
use crate::index::{canonical, entries_map, find_entry, find_field, IndexMap, TypeInfo, query_key, mutation_key};

verus! {

/// The coordinate `t.f`.
pub open spec fn coord(t: Seq<char>, f: Seq<char>) -> Seq<char> {
    t + seq!['.'] + f
}

/// The coordinates of the first `n` of `sels`, read under parent key
/// `parent`; `fuel` bounds how deep fragment spreads nest.
pub open spec fn selections_coords(
    ix: IndexMap,
    defs: Seq<Definition>,
    parent: Seq<char>,
    sels: Seq<Selection>,
    n: int,
    fuel: nat,
) -> Set<Seq<char>>
    decreases 2 * fuel + 1, sels, n,
{
    if n <= 0 || n > sels.len() {
        Set::empty()
    } else {
        selections_coords(ix, defs, parent, sels, n - 1, fuel) + selection_coords(
            ix,
            defs,
            parent,
            sels[n - 1],
            fuel,
        )
    }
}

/// The coordinates of one selection under parent key `parent`.
///
/// A field gives its own coordinate, and those of its nested selections
/// only where the parent is indexed and declares the field. A spread gives
/// those of every fragment of its name, under the fragment's type
/// condition, as long as `fuel` lasts. An inline fragment gives those of its
/// selections under its type condition, or under `parent` where it has none.
pub open spec fn selection_coords(
    ix: IndexMap,
    defs: Seq<Definition>,
    parent: Seq<char>,
    sel: Selection,
    fuel: nat,
) -> Set<Seq<char>>
    decreases 2 * fuel + 1, sel, 0int,
{
    match sel {
        Selection::Field(f) => {
            let here = set![coord(canonical(ix, parent), f.name@)];
            if f.selections@.len() > 0 && ix.contains_key(parent) && ix[parent].fields.contains_key(
                f.name@,
            ) {
                here + selections_coords(
                    ix,
                    defs,
                    ix[parent].fields[f.name@],
                    f.selections@,
                    f.selections@.len() as int,
                    fuel,
                )
            } else {
                here
            }
        },
        Selection::FragmentSpread(name) => {
            if fuel == 0 {
                Set::empty()
            } else {
                spread_coords(ix, defs, name@, defs.len() as int, fuel)
            }
        },
        Selection::InlineFragment { type_condition, selections } => {
            let p = match type_condition {
                Some(t) => t@,
                None => parent,
            };
            selections_coords(ix, defs, p, selections@, selections@.len() as int, fuel)
        },
    }
}

/// The coordinates of the fragments named `name` among the first `n`
/// definitions, each read under its type condition with one level less of
/// `fuel`.
pub open spec fn spread_coords(
    ix: IndexMap,
    defs: Seq<Definition>,
    name: Seq<char>,
    n: int,
    fuel: nat,
) -> Set<Seq<char>>
    decreases 2 * fuel, defs, n + 1,
{
    if n <= 0 || n > defs.len() {
        Set::empty()
    } else {
        spread_coords(ix, defs, name, n - 1, fuel) + fragment_coords(ix, defs, name, defs[n - 1], fuel)
    }
}

/// The coordinates of a definition where it is a fragment named `name`,
/// read under its type condition with one level less of `fuel` (none where
/// `fuel` is spent).
pub open spec fn fragment_coords(
    ix: IndexMap,
    defs: Seq<Definition>,
    name: Seq<char>,
    d: Definition,
    fuel: nat,
) -> Set<Seq<char>>
    decreases 2 * fuel, defs, 0int,
{
    if fuel == 0 {
        Set::empty()
    } else {
    match d {
        Definition::Fragment(fr) => if fr.name@ == name {
            selections_coords(
                ix,
                defs,
                fr.type_condition@,
                fr.selections@,
                fr.selections@.len() as int,
                (fuel - 1) as nat,
            )
        } else {
            Set::empty()
        },
        _ => Set::empty(),
    }
    }
}

/// The five built-in scalar names.
pub open spec fn builtin_scalar(s: Seq<char>) -> bool {
    s == seq!['S', 't', 'r', 'i', 'n', 'g'] || s == seq!['I', 'n', 't'] || s == seq![
        'F',
        'l',
        'o',
        'a',
        't',
    ] || s == seq!['B', 'o', 'o', 'l', 'e', 'a', 'n'] || s == seq!['I', 'D']
}

/// The bare type names that the first `n` variable types reference: those
/// indexed and not built-in scalars.
pub open spec fn variable_coords(ix: IndexMap, vars: Seq<TypeRef>, n: int) -> Set<Seq<char>>
    decreases n,
{
    if n <= 0 || n > vars.len() {
        Set::empty()
    } else {
        let t = named_type(vars[n - 1]);
        let rest = variable_coords(ix, vars, n - 1);
        if ix.contains_key(t) && !builtin_scalar(t) {
            rest.insert(t)
        } else {
            rest
        }
    }
}

/// The key that an operation's selections are read under.
pub open spec fn root_key(kind: OperationKind) -> Seq<char> {
    match kind {
        OperationKind::Mutation => mutation_key(),
        _ => query_key(),
    }
}

/// The coordinates of one operation.
pub open spec fn operation_coords(ix: IndexMap, defs: Seq<Definition>, op: Operation, fuel: nat) -> Set<
    Seq<char>,
> {
    variable_coords(ix, op.variable_types@, op.variable_types@.len() as int) + selections_coords(
        ix,
        defs,
        root_key(op.kind),
        op.selections@,
        op.selections@.len() as int,
        fuel,
    )
}

/// The coordinates of the operations among the first `n` definitions.
pub open spec fn operations_coords(ix: IndexMap, defs: Seq<Definition>, n: int, fuel: nat) -> Set<
    Seq<char>,
>
    decreases n,
{
    if n <= 0 || n > defs.len() {
        Set::empty()
    } else {
        let rest = operations_coords(ix, defs, n - 1, fuel);
        match defs[n - 1] {
            Definition::Operation(op) => rest + operation_coords(ix, defs, op, fuel),
            _ => rest,
        }
    }
}

/// The nesting bound for fragment spreads: the number of definitions. A
/// chain of spreads that never repeats a fragment stays within it.
pub open spec fn spread_bound(defs: Seq<Definition>) -> nat {
    defs.len()
}

/// The coordinates of a document's operations.
pub open spec fn document_coords(ix: IndexMap, defs: Seq<Definition>) -> Set<Seq<char>> {
    operations_coords(ix, defs, defs.len() as int, spread_bound(defs))
}

/// Whether the document holds a subscription operation.
pub open spec fn has_subscription(defs: Seq<Definition>) -> bool {
    exists|i: int|
        0 <= i < defs.len() && #[trigger] defs[i] is Operation && defs[i]->Operation_0.kind
            == OperationKind::Subscription
}

/// The texts that a list of strings holds.
pub open spec fn texts(v: Seq<String>) -> Set<Seq<char>> {
    Set::new(|c: Seq<char>| exists|i: int| 0 <= i < v.len() && v[i]@ == c)
}

/// No text occurs twice in the list.
pub open spec fn distinct_texts(v: Seq<String>) -> bool {
    forall|i: int, j: int| 0 <= i < j < v.len() ==> v[i]@ != v[j]@
}

/// Adds `c` to the collected coordinates unless it is there already.
fn add_coordinate(out: &mut Vec<String>, c: String)
    requires
        distinct_texts(old(out)@),
    ensures
        distinct_texts(final(out)@),
        texts(final(out)@) == texts(old(out)@).insert(c@),
{
    let mut i: usize = 0;
    while i < out.len()
        invariant
            i <= out@.len(),
            distinct_texts(out@),
            forall|j: int| 0 <= j < i ==> out@[j]@ != c@,
        decreases out@.len() - i,
    {
        if out[i] == c {
            assert(texts(out@) =~= texts(out@).insert(c@));
            return;
        }
        i = i + 1;
    }
    let ghost before = out@;
    out.push(c);
    assert(texts(out@) =~= texts(before).insert(c@)) by {
        assert forall|x: Seq<char>| texts(out@).contains(x) implies texts(before).insert(c@).contains(x) by {
            let k = choose|k: int| 0 <= k < out@.len() && out@[k]@ == x;
            if k < before.len() {
                assert(before[k] == out@[k]);
            }
        }
        assert forall|x: Seq<char>| texts(before).insert(c@).contains(x) implies texts(out@).contains(x) by {
            if x != c@ {
                let k = choose|k: int| 0 <= k < before.len() && before[k]@ == x;
                assert(out@[k] == before[k]);
            } else {
                assert(out@[before.len() as int] == c);
            }
        }
    }
}

/// The canonical name of a parent key.
fn canonical_name(ix: &Vec<TypeInfo>, parent: &String) -> (r: String)
    ensures
        r@ == canonical(entries_map(ix@), parent@),
{
    match find_entry(ix, parent) {
        Some(k) => ix[k].name.clone(),
        None => parent.clone(),
    }
}

/// Whether a name is one of the built-in scalars.
fn is_builtin_scalar(name: &String) -> (r: bool)
    ensures
        r == builtin_scalar(name@),
{
    proof {
        reveal_strlit("String");
        reveal_strlit("Int");
        reveal_strlit("Float");
        reveal_strlit("Boolean");
        reveal_strlit("ID");
    }
    let s = String::from_str("String");
    let i = String::from_str("Int");
    let f = String::from_str("Float");
    let b = String::from_str("Boolean");
    let d = String::from_str("ID");
    assert(s@ =~= seq!['S', 't', 'r', 'i', 'n', 'g']);
    assert(i@ =~= seq!['I', 'n', 't']);
    assert(f@ =~= seq!['F', 'l', 'o', 'a', 't']);
    assert(b@ =~= seq!['B', 'o', 'o', 'l', 'e', 'a', 'n']);
    assert(d@ =~= seq!['I', 'D']);
    *name == s || *name == i || *name == f || *name == b || *name == d
}

/// Collects the coordinates of `sels` under parent key `parent`.
fn walk_selections(
    ix: &Vec<TypeInfo>,
    defs: &Vec<Definition>,
    parent: &String,
    sels: &Vec<Selection>,
    fuel: usize,
    out: &mut Vec<String>,
)
    requires
        distinct_texts(old(out)@),
    ensures
        distinct_texts(final(out)@),
        texts(final(out)@) == texts(old(out)@) + selections_coords(
            entries_map(ix@),
            defs@,
            parent@,
            sels@,
            sels@.len() as int,
            fuel as nat,
        ),
    decreases 2 * fuel + 1, sels@, 0int,
{
    let ghost start = texts(out@);
    let ghost m = entries_map(ix@);
    let mut i: usize = 0;
    while i < sels.len()
        invariant
            i <= sels@.len(),
            m == entries_map(ix@),
            distinct_texts(out@),
            texts(out@) == start + selections_coords(m, defs@, parent@, sels@, i as int, fuel as nat),
        decreases sels@.len() - i,
    {
        walk_selection(ix, defs, parent, &sels[i], fuel, out);
        assert(texts(out@) =~= start + selections_coords(m, defs@, parent@, sels@, i + 1, fuel as nat));
        i = i + 1;
    }
}

/// Collects the coordinates of one selection under parent key `parent`.
fn walk_selection(
    ix: &Vec<TypeInfo>,
    defs: &Vec<Definition>,
    parent: &String,
    sel: &Selection,
    fuel: usize,
    out: &mut Vec<String>,
)
    requires
        distinct_texts(old(out)@),
    ensures
        distinct_texts(final(out)@),
        texts(final(out)@) == texts(old(out)@) + selection_coords(
            entries_map(ix@),
            defs@,
            parent@,
            *sel,
            fuel as nat,
        ),
    decreases 2 * fuel + 1, *sel, 0int,
{
    let ghost m = entries_map(ix@);
    let ghost start = texts(out@);
    match sel {
        Selection::Field(f) => {
            let mut c = canonical_name(ix, parent);
            proof {
                reveal_strlit(".");
            }
            c.append(".");
            c.append(f.name.as_str());
            assert(c@ =~= coord(canonical(m, parent@), f.name@));
            add_coordinate(out, c);
            if f.selections.len() > 0 {
                if let Some(k) = find_entry(ix, parent) {
                    if let Some(j) = find_field(&ix[k].fields, &f.name) {
                        let child = ix[k].fields[j].1.clone();
                        walk_selections(ix, defs, &child, &f.selections, fuel, out);
                    }
                }
            }
            assert(texts(out@) =~= start + selection_coords(m, defs@, parent@, *sel, fuel as nat));
        },
        Selection::FragmentSpread(name) => {
            if fuel > 0 {
                walk_spread(ix, defs, name, fuel, out);
            }
            assert(texts(out@) =~= start + selection_coords(m, defs@, parent@, *sel, fuel as nat));
        },
        Selection::InlineFragment { type_condition, selections } => {
            let p = match type_condition {
                Some(t) => t,
                None => parent,
            };
            walk_selections(ix, defs, p, selections, fuel, out);
        },
    }
}

/// Collects the coordinates of every fragment named `name`, each under its
/// type condition, with one level less of `fuel`.
fn walk_spread(ix: &Vec<TypeInfo>, defs: &Vec<Definition>, name: &String, fuel: usize, out: &mut Vec<String>)
    requires
        distinct_texts(old(out)@),
        fuel > 0,
    ensures
        distinct_texts(final(out)@),
        texts(final(out)@) == texts(old(out)@) + spread_coords(
            entries_map(ix@),
            defs@,
            name@,
            defs@.len() as int,
            fuel as nat,
        ),
    decreases 2 * fuel, defs@, 0int,
{
    let ghost start = texts(out@);
    let ghost m = entries_map(ix@);
    let mut i: usize = 0;
    while i < defs.len()
        invariant
            i <= defs@.len(),
            fuel > 0,
            m == entries_map(ix@),
            distinct_texts(out@),
            texts(out@) == start + spread_coords(m, defs@, name@, i as int, fuel as nat),
        decreases defs@.len() - i,
    {
        if let Definition::Fragment(fr) = &defs[i] {
            if fr.name == *name {
                walk_selections(ix, defs, &fr.type_condition, &fr.selections, fuel - 1, out);
            }
        }
        assert(spread_coords(m, defs@, name@, i + 1, fuel as nat) == spread_coords(
            m,
            defs@,
            name@,
            i as int,
            fuel as nat,
        ) + fragment_coords(m, defs@, name@, defs@[i as int], fuel as nat));
        assert(texts(out@) =~= start + spread_coords(m, defs@, name@, i + 1, fuel as nat));
        i = i + 1;
    }
}

/// Collects the bare names of the indexed, non-built-in variable types.
fn walk_variables(ix: &Vec<TypeInfo>, vars: &Vec<TypeRef>, out: &mut Vec<String>)
    requires
        distinct_texts(old(out)@),
    ensures
        distinct_texts(final(out)@),
        texts(final(out)@) == texts(old(out)@) + variable_coords(
            entries_map(ix@),
            vars@,
            vars@.len() as int,
        ),
{
    let ghost start = texts(out@);
    let ghost m = entries_map(ix@);
    let mut i: usize = 0;
    while i < vars.len()
        invariant
            i <= vars@.len(),
            m == entries_map(ix@),
            distinct_texts(out@),
            texts(out@) == start + variable_coords(m, vars@, i as int),
        decreases vars@.len() - i,
    {
        let t = vars[i].named();
        if find_entry(ix, &t).is_some() && !is_builtin_scalar(&t) {
            add_coordinate(out, t);
        }
        assert(texts(out@) =~= start + variable_coords(m, vars@, i + 1));
        i = i + 1;
    }
}

/// Collects the coordinates of one operation.
fn walk_operation(ix: &Vec<TypeInfo>, defs: &Vec<Definition>, op: &Operation, out: &mut Vec<String>)
    requires
        distinct_texts(old(out)@),
    ensures
        distinct_texts(final(out)@),
        texts(final(out)@) == texts(old(out)@) + operation_coords(
            entries_map(ix@),
            defs@,
            *op,
            spread_bound(defs@),
        ),
{
    let ghost start = texts(out@);
    walk_variables(ix, &op.variable_types, out);
    let root = match op.kind {
        OperationKind::Mutation => String::from_str("Mutation"),
        _ => String::from_str("Query"),
    };
    proof {
        reveal_strlit("Query");
        reveal_strlit("Mutation");
        assert(root@ =~= root_key(op.kind));
    }
    walk_selections(ix, defs, &root, &op.selections, defs.len(), out);
    assert(texts(out@) =~= start + operation_coords(entries_map(ix@), defs@, *op, spread_bound(defs@)));
}

/// The coordinates of a document's operations read against the stored
/// entries `ix`, each once; `None` where the document holds a subscription.
pub fn collect_coordinates(ix: &Vec<TypeInfo>, defs: &Vec<Definition>) -> (r: Option<Vec<String>>)
    ensures
        r is None <==> has_subscription(defs@),
        r matches Some(v) ==> distinct_texts(v@) && texts(v@) == document_coords(entries_map(ix@), defs@),
{
    let mut i: usize = 0;
    while i < defs.len()
        invariant
            i <= defs@.len(),
            forall|j: int| 0 <= j < i ==> !(#[trigger] defs@[j] is Operation && defs@[j]->Operation_0.kind
                == OperationKind::Subscription),
        decreases defs@.len() - i,
    {
        if let Definition::Operation(op) = &defs[i] {
            if op.kind == OperationKind::Subscription {
                assert(defs@[i as int] is Operation && defs@[i as int]->Operation_0.kind
                    == OperationKind::Subscription);
                return None;
            }
        }
        i = i + 1;
    }
    let mut out: Vec<String> = Vec::new();
    let ghost m = entries_map(ix@);
    assert(texts(out@) =~= Set::<Seq<char>>::empty());
    let mut i: usize = 0;
    while i < defs.len()
        invariant
            i <= defs@.len(),
            m == entries_map(ix@),
            distinct_texts(out@),
            texts(out@) == operations_coords(m, defs@, i as int, spread_bound(defs@)),
        decreases defs@.len() - i,
    {
        if let Definition::Operation(op) = &defs[i] {
            walk_operation(ix, defs, op, &mut out);
        }
        assert(texts(out@) =~= operations_coords(m, defs@, i + 1, spread_bound(defs@)));
        i = i + 1;
    }
    Some(out)
}

} // verus!
