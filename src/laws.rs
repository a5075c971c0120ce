//! Properties of indexing and extraction, stated over the models and proved.
use vstd::prelude::*;
use crate::ast::{Definition, FieldSelection, SchemaItem, Selection};
use crate::extract::{
    builtin_scalar, coord, document_coords, fragment_coords, operation_coords, operations_coords, root_key,
    selection_coords, selections_coords, spread_coords, texts, variable_coords,
};
use crate::ast::{named_type, TypeRef};
use crate::index::{canonical, index_of, mutation_key, mutation_root, query_key, query_root, IndexMap};
use crate::ast::{OperationKind, QueryDocument, SchemaDocument};
use crate::schema::ParsedSchema;

verus! {

/// The coordinates of the first `n` selections depend on those selections
/// alone.
proof fn lemma_selections_prefix(
    ix: IndexMap,
    defs: Seq<Definition>,
    p: Seq<char>,
    s: Seq<Selection>,
    t: Seq<Selection>,
    n: int,
    fuel: nat,
)
    requires
        0 <= n <= s.len(),
        n <= t.len(),
        forall|i: int| 0 <= i < n ==> s[i] == t[i],
    ensures
        selections_coords(ix, defs, p, s, n, fuel) == selections_coords(ix, defs, p, t, n, fuel),
    decreases n,
{
    if n > 0 {
        lemma_selections_prefix(ix, defs, p, s, t, n - 1, fuel);
    }
}

/// The coordinates of two selection lists read one after the other are the
/// union of the coordinates of each.
pub proof fn lemma_selections_concat(
    ix: IndexMap,
    defs: Seq<Definition>,
    p: Seq<char>,
    a: Seq<Selection>,
    b: Seq<Selection>,
    fuel: nat,
)
    ensures
        selections_coords(ix, defs, p, a + b, (a + b).len() as int, fuel) == selections_coords(
            ix,
            defs,
            p,
            a,
            a.len() as int,
            fuel,
        ) + selections_coords(ix, defs, p, b, b.len() as int, fuel),
{
    lemma_concat_upto(ix, defs, p, a, b, b.len() as int, fuel);
}

proof fn lemma_concat_upto(
    ix: IndexMap,
    defs: Seq<Definition>,
    p: Seq<char>,
    a: Seq<Selection>,
    b: Seq<Selection>,
    k: int,
    fuel: nat,
)
    requires
        0 <= k <= b.len(),
    ensures
        selections_coords(ix, defs, p, a + b, a.len() + k, fuel) == selections_coords(
            ix,
            defs,
            p,
            a,
            a.len() as int,
            fuel,
        ) + selections_coords(ix, defs, p, b, k, fuel),
    decreases k,
{
    let c = a + b;
    if k == 0 {
        lemma_selections_prefix(ix, defs, p, c, a, a.len() as int, fuel);
        assert(selections_coords(ix, defs, p, a, a.len() as int, fuel) + Set::empty() =~= selections_coords(
            ix,
            defs,
            p,
            a,
            a.len() as int,
            fuel,
        ));
    } else {
        lemma_concat_upto(ix, defs, p, a, b, k - 1, fuel);
        assert(c[a.len() + k - 1] == b[k - 1]);
        assert(selections_coords(ix, defs, p, c, a.len() + k, fuel) =~= selections_coords(
            ix,
            defs,
            p,
            a,
            a.len() as int,
            fuel,
        ) + selections_coords(ix, defs, p, b, k, fuel));
    }
}

/// Selecting the same list twice gives no coordinate beyond selecting it
/// once.
pub proof fn lemma_reselection_adds_nothing(
    ix: IndexMap,
    defs: Seq<Definition>,
    p: Seq<char>,
    s: Seq<Selection>,
    fuel: nat,
)
    ensures
        selections_coords(ix, defs, p, s + s, (s + s).len() as int, fuel) == selections_coords(
            ix,
            defs,
            p,
            s,
            s.len() as int,
            fuel,
        ),
{
    lemma_selections_concat(ix, defs, p, s, s, fuel);
    assert(selections_coords(ix, defs, p, s, s.len() as int, fuel) + selections_coords(
        ix,
        defs,
        p,
        s,
        s.len() as int,
        fuel,
    ) =~= selections_coords(ix, defs, p, s, s.len() as int, fuel));
}

/// A field that the parent type does not declare, or whose parent is not
/// indexed, gives its own coordinate and nothing for its nested selections.
pub proof fn lemma_unknown_field_is_leaf(
    ix: IndexMap,
    defs: Seq<Definition>,
    p: Seq<char>,
    f: FieldSelection,
    fuel: nat,
)
    requires
        !(ix.contains_key(p) && ix[p].fields.contains_key(f.name@)),
    ensures
        selection_coords(ix, defs, p, Selection::Field(f), fuel) == set![coord(canonical(ix, p), f.name@)],
{
}

/// Where the schema names a root type other than `Query` (or `Mutation`),
/// the alias resolves to that name, and a root field of such an operation
/// is reported under it.
pub proof fn lemma_root_alias(schema: Seq<SchemaItem>, defs: Seq<Definition>, f: FieldSelection, fuel: nat)
    ensures
        query_root(schema, schema.len() as int) != query_key() ==> {
            &&& canonical(index_of(schema), query_key()) == query_root(schema, schema.len() as int)
            &&& selection_coords(
                index_of(schema),
                defs,
                root_key(OperationKind::Query),
                Selection::Field(f),
                fuel,
            ).contains(coord(query_root(schema, schema.len() as int), f.name@))
        },
        mutation_root(schema, schema.len() as int) != mutation_key() ==> {
            &&& canonical(index_of(schema), mutation_key()) == mutation_root(schema, schema.len() as int)
            &&& selection_coords(
                index_of(schema),
                defs,
                root_key(OperationKind::Mutation),
                Selection::Field(f),
                fuel,
            ).contains(coord(mutation_root(schema, schema.len() as int), f.name@))
        },
{
    assert(query_key() != mutation_key());
}

/// A fragment without a type condition is transparent: a list holding one
/// gives the same coordinates as the list with the fragment's selections
/// written in its place.
pub proof fn lemma_untyped_inline_fragment_splices(
    ix: IndexMap,
    defs: Seq<Definition>,
    p: Seq<char>,
    before: Seq<Selection>,
    sels: Vec<Selection>,
    after: Seq<Selection>,
    fuel: nat,
)
    ensures
        ({
            let with_fragment = before + seq![Selection::InlineFragment { type_condition: None, selections: sels }]
                + after;
            let inlined = before + sels@ + after;
            selections_coords(ix, defs, p, with_fragment, with_fragment.len() as int, fuel)
                == selections_coords(ix, defs, p, inlined, inlined.len() as int, fuel)
        }),
{
    let frag = seq![Selection::InlineFragment { type_condition: None, selections: sels }];
    lemma_selections_concat(ix, defs, p, before + frag, after, fuel);
    lemma_selections_concat(ix, defs, p, before, frag, fuel);
    lemma_selections_concat(ix, defs, p, before + sels@, after, fuel);
    lemma_selections_concat(ix, defs, p, before, sels@, fuel);
    assert(selections_coords(ix, defs, p, frag, 0, fuel) == Set::<Seq<char>>::empty());
    assert(selection_coords(ix, defs, p, frag[0], fuel) == selections_coords(
        ix,
        defs,
        p,
        sels@,
        sels@.len() as int,
        fuel,
    ));
    assert(selections_coords(ix, defs, p, frag, 1, fuel) =~= selections_coords(
        ix,
        defs,
        p,
        sels@,
        sels@.len() as int,
        fuel,
    ));
}

/// A fragment with a type condition gives the coordinates of its selections
/// read under that type; where the type is the parent's, a list holding it
/// gives the same coordinates as the list with the selections written in its
/// place.
pub proof fn lemma_typed_inline_fragment(
    ix: IndexMap,
    defs: Seq<Definition>,
    p: Seq<char>,
    t: String,
    before: Seq<Selection>,
    sels: Vec<Selection>,
    after: Seq<Selection>,
    fuel: nat,
)
    ensures
        selection_coords(
            ix,
            defs,
            p,
            Selection::InlineFragment { type_condition: Some(t), selections: sels },
            fuel,
        ) == selections_coords(ix, defs, t@, sels@, sels@.len() as int, fuel),
        t@ == p ==> ({
            let with_fragment = before + seq![Selection::InlineFragment { type_condition: Some(t), selections: sels }]
                + after;
            let inlined = before + sels@ + after;
            selections_coords(ix, defs, p, with_fragment, with_fragment.len() as int, fuel)
                == selections_coords(ix, defs, p, inlined, inlined.len() as int, fuel)
        }),
{
    let frag = seq![Selection::InlineFragment { type_condition: Some(t), selections: sels }];
    lemma_selections_concat(ix, defs, p, before + frag, after, fuel);
    lemma_selections_concat(ix, defs, p, before, frag, fuel);
    lemma_selections_concat(ix, defs, p, before + sels@, after, fuel);
    lemma_selections_concat(ix, defs, p, before, sels@, fuel);
    assert(selections_coords(ix, defs, p, frag, 0, fuel) == Set::<Seq<char>>::empty());
    assert(selections_coords(ix, defs, p, frag, 1, fuel) =~= selection_coords(ix, defs, p, frag[0], fuel));
}

/// The fragments named `name` among the first `n` definitions, where the
/// one at `k` is the only one, contribute what that one does.
proof fn lemma_spread_unique(ix: IndexMap, defs: Seq<Definition>, name: Seq<char>, k: int, n: int, fuel: nat)
    requires
        0 <= k < defs.len(),
        0 <= n <= defs.len(),
        forall|j: int|
            0 <= j < defs.len() && j != k ==> fragment_coords(ix, defs, name, #[trigger] defs[j], fuel)
                == Set::<Seq<char>>::empty(),
    ensures
        spread_coords(ix, defs, name, n, fuel) == if k < n {
            fragment_coords(ix, defs, name, defs[k], fuel)
        } else {
            Set::empty()
        },
    decreases n,
{
    if n > 0 {
        lemma_spread_unique(ix, defs, name, k, n - 1, fuel);
        assert(spread_coords(ix, defs, name, n, fuel) =~= if k < n {
            fragment_coords(ix, defs, name, defs[k], fuel)
        } else {
            Set::empty()
        });
    }
}

/// A spread of the one fragment of its name gives the coordinates of an
/// inline fragment with the same type condition and selections, at one
/// level less of the nesting bound.
pub proof fn lemma_spread_is_inline_fragment(
    ix: IndexMap,
    defs: Seq<Definition>,
    p: Seq<char>,
    name: String,
    k: int,
    fuel: nat,
)
    requires
        0 <= k < defs.len(),
        defs[k] is Fragment,
        defs[k]->Fragment_0.name@ == name@,
        forall|j: int|
            0 <= j < defs.len() && j != k ==> !(#[trigger] defs[j] is Fragment && defs[j]->Fragment_0.name@
                == name@),
    ensures
        selection_coords(ix, defs, p, Selection::FragmentSpread(name), fuel + 1) == selection_coords(
            ix,
            defs,
            p,
            Selection::InlineFragment {
                type_condition: Some(defs[k]->Fragment_0.type_condition),
                selections: defs[k]->Fragment_0.selections,
            },
            fuel,
        ),
{
    assert forall|j: int| 0 <= j < defs.len() && j != k implies fragment_coords(
        ix,
        defs,
        name@,
        #[trigger] defs[j],
        fuel + 1,
    ) == Set::<Seq<char>>::empty() by {}
    lemma_spread_unique(ix, defs, name@, k, defs.len() as int, fuel + 1);
}

/// A spread of a fragment that the document does not define gives nothing.
pub proof fn lemma_spread_of_missing_fragment(
    ix: IndexMap,
    defs: Seq<Definition>,
    p: Seq<char>,
    name: String,
    fuel: nat,
)
    requires
        forall|j: int|
            0 <= j < defs.len() ==> !(#[trigger] defs[j] is Fragment && defs[j]->Fragment_0.name@ == name@),
    ensures
        selection_coords(ix, defs, p, Selection::FragmentSpread(name), fuel) == Set::<Seq<char>>::empty(),
{
    if fuel > 0 {
        lemma_spread_none(ix, defs, name@, defs.len() as int, fuel);
    }
}

proof fn lemma_spread_none(ix: IndexMap, defs: Seq<Definition>, name: Seq<char>, n: int, fuel: nat)
    requires
        0 <= n <= defs.len(),
        forall|j: int|
            0 <= j < defs.len() ==> !(#[trigger] defs[j] is Fragment && defs[j]->Fragment_0.name@ == name),
    ensures
        spread_coords(ix, defs, name, n, fuel) == Set::<Seq<char>>::empty(),
    decreases n,
{
    if n > 0 {
        lemma_spread_none(ix, defs, name, n - 1, fuel);
        assert(!(defs[n - 1] is Fragment && defs[n - 1]->Fragment_0.name@ == name));
        assert(fragment_coords(ix, defs, name, defs[n - 1], fuel) =~= Set::<Seq<char>>::empty());
        assert(spread_coords(ix, defs, name, n, fuel) =~= Set::<Seq<char>>::empty());
    }
}

/// Indexing and extraction are functions of their inputs: two indexes of one
/// schema agree, and any two coordinate lists that the extraction contract
/// admits for one schema and one document hold the same coordinates.
pub proof fn lemma_extraction_deterministic(
    schema: SchemaDocument,
    s1: ParsedSchema,
    s2: ParsedSchema,
    doc: QueryDocument,
    v1: Seq<String>,
    v2: Seq<String>,
)
    requires
        s1@ == index_of(schema.definitions@),
        s2@ == index_of(schema.definitions@),
        texts(v1) == document_coords(s1@, doc.definitions@),
        texts(v2) == document_coords(s2@, doc.definitions@),
    ensures
        s1@ == s2@,
        texts(v1) == texts(v2),
{
}

/// A variable reports the bare name of its type, wrappers stripped, exactly
/// when that name is indexed and is not a built-in scalar.
pub proof fn lemma_variable_coords(ix: IndexMap, vars: Seq<TypeRef>, c: Seq<char>)
    ensures
        variable_coords(ix, vars, vars.len() as int).contains(c) <==> (ix.contains_key(c) && !builtin_scalar(c)
            && exists|i: int| 0 <= i < vars.len() && named_type(#[trigger] vars[i]) == c),
{
    lemma_variable_coords_upto(ix, vars, c, vars.len() as int);
}

proof fn lemma_variable_coords_upto(ix: IndexMap, vars: Seq<TypeRef>, c: Seq<char>, n: int)
    requires
        0 <= n <= vars.len(),
    ensures
        variable_coords(ix, vars, n).contains(c) <==> (ix.contains_key(c) && !builtin_scalar(c) && exists|i: int|
            0 <= i < n && named_type(#[trigger] vars[i]) == c),
    decreases n,
{
    if n > 0 {
        lemma_variable_coords_upto(ix, vars, c, n - 1);
        if ix.contains_key(c) && !builtin_scalar(c) && named_type(vars[n - 1]) != c {
            if exists|i: int| 0 <= i < n && named_type(#[trigger] vars[i]) == c {
                let i = choose|i: int| 0 <= i < n && named_type(#[trigger] vars[i]) == c;
                assert(i < n - 1);
            }
        }
    }
}

/// A coordinate of the form `Type.field`.
pub open spec fn is_field_coord(c: Seq<char>) -> bool {
    exists|t: Seq<char>, f: Seq<char>| c == coord(t, f)
}

/// Every coordinate that a selection list gives has the form `Type.field`.
pub proof fn lemma_selections_form(
    ix: IndexMap,
    defs: Seq<Definition>,
    p: Seq<char>,
    sels: Seq<Selection>,
    n: int,
    fuel: nat,
)
    ensures
        forall|c: Seq<char>| #[trigger] selections_coords(ix, defs, p, sels, n, fuel).contains(c) ==> is_field_coord(c),
    decreases 2 * fuel + 1, sels, n,
{
    if !(n <= 0 || n > sels.len()) {
        lemma_selections_form(ix, defs, p, sels, n - 1, fuel);
        lemma_selection_form(ix, defs, p, sels[n - 1], fuel);
        assert forall|c: Seq<char>| #[trigger] selections_coords(ix, defs, p, sels, n, fuel).contains(c) implies is_field_coord(
            c,
        ) by {
            if selections_coords(ix, defs, p, sels, n - 1, fuel).contains(c) {
            } else {
                assert(selection_coords(ix, defs, p, sels[n - 1], fuel).contains(c));
            }
        }
    }
}

proof fn lemma_selection_form(ix: IndexMap, defs: Seq<Definition>, p: Seq<char>, sel: Selection, fuel: nat)
    ensures
        forall|c: Seq<char>| #[trigger] selection_coords(ix, defs, p, sel, fuel).contains(c) ==> is_field_coord(c),
    decreases 2 * fuel + 1, sel, 0int,
{
    match sel {
        Selection::Field(f) => {
            let here = coord(canonical(ix, p), f.name@);
            assert(is_field_coord(here));
            if f.selections@.len() > 0 && ix.contains_key(p) && ix[p].fields.contains_key(f.name@) {
                let child = ix[p].fields[f.name@];
                lemma_selections_form(ix, defs, child, f.selections@, f.selections@.len() as int, fuel);
                assert forall|c: Seq<char>| #[trigger] selection_coords(ix, defs, p, sel, fuel).contains(c) implies is_field_coord(
                    c,
                ) by {
                    if c != here {
                        assert(selections_coords(ix, defs, child, f.selections@, f.selections@.len() as int, fuel).contains(c));
                    }
                }
            } else {
                assert forall|c: Seq<char>| #[trigger] selection_coords(ix, defs, p, sel, fuel).contains(c) implies is_field_coord(
                    c,
                ) by {
                    assert(c == here);
                }
            }
        },
        Selection::FragmentSpread(name) => {
            if fuel > 0 {
                lemma_spread_form(ix, defs, name@, defs.len() as int, fuel);
                assert forall|c: Seq<char>| #[trigger] selection_coords(ix, defs, p, sel, fuel).contains(c) implies is_field_coord(
                    c,
                ) by {
                    assert(spread_coords(ix, defs, name@, defs.len() as int, fuel).contains(c));
                }
            }
        },
        Selection::InlineFragment { type_condition, selections } => {
            let q = match type_condition {
                Some(t) => t@,
                None => p,
            };
            lemma_selections_form(ix, defs, q, selections@, selections@.len() as int, fuel);
            assert forall|c: Seq<char>| #[trigger] selection_coords(ix, defs, p, sel, fuel).contains(c) implies is_field_coord(
                c,
            ) by {
                assert(selections_coords(ix, defs, q, selections@, selections@.len() as int, fuel).contains(c));
            }
        },
    }
}

proof fn lemma_spread_form(ix: IndexMap, defs: Seq<Definition>, name: Seq<char>, n: int, fuel: nat)
    ensures
        forall|c: Seq<char>| #[trigger] spread_coords(ix, defs, name, n, fuel).contains(c) ==> is_field_coord(c),
    decreases 2 * fuel, defs, n + 1,
{
    if !(n <= 0 || n > defs.len()) {
        lemma_spread_form(ix, defs, name, n - 1, fuel);
        lemma_fragment_form(ix, defs, name, defs[n - 1], fuel);
        assert forall|c: Seq<char>| #[trigger] spread_coords(ix, defs, name, n, fuel).contains(c) implies is_field_coord(
            c,
        ) by {
            if spread_coords(ix, defs, name, n - 1, fuel).contains(c) {
            } else {
                assert(fragment_coords(ix, defs, name, defs[n - 1], fuel).contains(c));
            }
        }
    }
}

proof fn lemma_fragment_form(ix: IndexMap, defs: Seq<Definition>, name: Seq<char>, d: Definition, fuel: nat)
    ensures
        forall|c: Seq<char>| #[trigger] fragment_coords(ix, defs, name, d, fuel).contains(c) ==> is_field_coord(c),
    decreases 2 * fuel, defs, 0int,
{
    if fuel > 0 {
        if let Definition::Fragment(fr) = d {
            lemma_selections_form(
                ix,
                defs,
                fr.type_condition@,
                fr.selections@,
                fr.selections@.len() as int,
                (fuel - 1) as nat,
            );
            assert forall|c: Seq<char>| #[trigger] fragment_coords(ix, defs, name, d, fuel).contains(c) implies is_field_coord(
                c,
            ) by {
                assert(selections_coords(
                    ix,
                    defs,
                    fr.type_condition@,
                    fr.selections@,
                    fr.selections@.len() as int,
                    (fuel - 1) as nat,
                ).contains(c));
            }
        }
    }
}

/// Every coordinate of a document is either `Type.field` or the bare name of
/// an indexed type that is not a built-in scalar.
pub proof fn lemma_document_form(ix: IndexMap, defs: Seq<Definition>)
    ensures
        forall|c: Seq<char>| #[trigger] document_coords(ix, defs).contains(c) ==> is_field_coord(c) || (ix.contains_key(
            c,
        ) && !builtin_scalar(c)),
{
    lemma_operations_form(ix, defs, defs.len() as int, defs.len());
}

proof fn lemma_operations_form(ix: IndexMap, defs: Seq<Definition>, n: int, fuel: nat)
    ensures
        forall|c: Seq<char>| #[trigger] operations_coords(ix, defs, n, fuel).contains(c) ==> is_field_coord(c) || (
        ix.contains_key(c) && !builtin_scalar(c)),
    decreases n,
{
    if !(n <= 0 || n > defs.len()) {
        lemma_operations_form(ix, defs, n - 1, fuel);
        if let Definition::Operation(op) = defs[n - 1] {
            let sels = op.selections@;
            let vars = op.variable_types@;
            lemma_selections_form(ix, defs, root_key(op.kind), sels, sels.len() as int, fuel);
            assert forall|c: Seq<char>| #[trigger] operations_coords(ix, defs, n, fuel).contains(c) implies is_field_coord(c)
                || (ix.contains_key(c) && !builtin_scalar(c)) by {
                if operations_coords(ix, defs, n - 1, fuel).contains(c) {
                } else if variable_coords(ix, vars, vars.len() as int).contains(c) {
                    lemma_variable_coords(ix, vars, c);
                } else {
                    assert(selections_coords(ix, defs, root_key(op.kind), sels, sels.len() as int, fuel).contains(c));
                }
            }
        } else {
            assert(operations_coords(ix, defs, n, fuel) == operations_coords(ix, defs, n - 1, fuel));
        }
    }
}

/// Every spread among the first `n` of `sels`, outside fragments they name,
/// names only fragments ranked below `r`.
pub open spec fn spreads_ranked(defs: Seq<Definition>, rank: Seq<nat>, sels: Seq<Selection>, n: int, r: nat) -> bool
    decreases sels, n,
{
    if n <= 0 || n > sels.len() {
        true
    } else {
        spreads_ranked(defs, rank, sels, n - 1, r) && selection_ranked(defs, rank, sels[n - 1], r)
    }
}

/// Every spread in `sel`, outside fragments it names, names only fragments
/// ranked below `r`.
pub open spec fn selection_ranked(defs: Seq<Definition>, rank: Seq<nat>, sel: Selection, r: nat) -> bool
    decreases sel, 0int,
{
    match sel {
        Selection::Field(f) => spreads_ranked(defs, rank, f.selections@, f.selections@.len() as int, r),
        Selection::FragmentSpread(name) => forall|j: int|
            0 <= j < defs.len() && #[trigger] defs[j] is Fragment && defs[j]->Fragment_0.name@ == name@ ==> rank[j] < r,
        Selection::InlineFragment { type_condition, selections } => spreads_ranked(
            defs,
            rank,
            selections@,
            selections@.len() as int,
            r,
        ),
    }
}

/// `rank` shows the document's fragments free of cycles: each fragment
/// spreads only fragments of lower rank, and every rank is below the number
/// of definitions.
pub open spec fn ranked_document(defs: Seq<Definition>, rank: Seq<nat>) -> bool {
    &&& rank.len() == defs.len()
    &&& forall|j: int| 0 <= j < defs.len() ==> #[trigger] rank[j] < defs.len()
    &&& forall|j: int|
        0 <= j < defs.len() && #[trigger] defs[j] is Fragment ==> spreads_ranked(
            defs,
            rank,
            defs[j]->Fragment_0.selections@,
            defs[j]->Fragment_0.selections@.len() as int,
            rank[j],
        )
    &&& forall|j: int|
        0 <= j < defs.len() && #[trigger] defs[j] is Operation ==> spreads_ranked(
            defs,
            rank,
            defs[j]->Operation_0.selections@,
            defs[j]->Operation_0.selections@.len() as int,
            defs.len(),
        )
}

proof fn lemma_sels_stable(
    ix: IndexMap,
    defs: Seq<Definition>,
    rank: Seq<nat>,
    p: Seq<char>,
    sels: Seq<Selection>,
    n: int,
    r: nat,
    f1: nat,
    f2: nat,
)
    requires
        ranked_document(defs, rank),
        spreads_ranked(defs, rank, sels, n, r),
        r <= f1,
        r <= f2,
    ensures
        selections_coords(ix, defs, p, sels, n, f1) == selections_coords(ix, defs, p, sels, n, f2),
    decreases 2 * f1 + 1, sels, n,
{
    if !(n <= 0 || n > sels.len()) {
        lemma_sels_stable(ix, defs, rank, p, sels, n - 1, r, f1, f2);
        lemma_sel_stable(ix, defs, rank, p, sels[n - 1], r, f1, f2);
    }
}

proof fn lemma_sel_stable(
    ix: IndexMap,
    defs: Seq<Definition>,
    rank: Seq<nat>,
    p: Seq<char>,
    sel: Selection,
    r: nat,
    f1: nat,
    f2: nat,
)
    requires
        ranked_document(defs, rank),
        selection_ranked(defs, rank, sel, r),
        r <= f1,
        r <= f2,
    ensures
        selection_coords(ix, defs, p, sel, f1) == selection_coords(ix, defs, p, sel, f2),
    decreases 2 * f1 + 1, sel, 0int,
{
    match sel {
        Selection::Field(f) => {
            if f.selections@.len() > 0 && ix.contains_key(p) && ix[p].fields.contains_key(f.name@) {
                lemma_sels_stable(
                    ix,
                    defs,
                    rank,
                    ix[p].fields[f.name@],
                    f.selections@,
                    f.selections@.len() as int,
                    r,
                    f1,
                    f2,
                );
            }
        },
        Selection::FragmentSpread(name) => {
            if f1 > 0 && f2 > 0 {
                lemma_spread_stable(ix, defs, rank, name@, defs.len() as int, r, f1, f2);
            } else {
                assert forall|j: int| 0 <= j < defs.len() implies !(#[trigger] defs[j] is Fragment
                    && defs[j]->Fragment_0.name@ == name@) by {}
                lemma_spread_of_missing_fragment(ix, defs, p, name, f1);
                lemma_spread_of_missing_fragment(ix, defs, p, name, f2);
            }
        },
        Selection::InlineFragment { type_condition, selections } => {
            let q = match type_condition {
                Some(t) => t@,
                None => p,
            };
            lemma_sels_stable(ix, defs, rank, q, selections@, selections@.len() as int, r, f1, f2);
        },
    }
}

proof fn lemma_spread_stable(
    ix: IndexMap,
    defs: Seq<Definition>,
    rank: Seq<nat>,
    name: Seq<char>,
    n: int,
    r: nat,
    f1: nat,
    f2: nat,
)
    requires
        ranked_document(defs, rank),
        forall|j: int| 0 <= j < defs.len() && #[trigger] defs[j] is Fragment && defs[j]->Fragment_0.name@ == name ==> rank[j] < r,
        r <= f1,
        r <= f2,
        f1 > 0,
        f2 > 0,
    ensures
        spread_coords(ix, defs, name, n, f1) == spread_coords(ix, defs, name, n, f2),
    decreases 2 * f1, defs, n + 1,
{
    if !(n <= 0 || n > defs.len()) {
        lemma_spread_stable(ix, defs, rank, name, n - 1, r, f1, f2);
        lemma_fragment_stable(ix, defs, rank, name, n - 1, r, f1, f2);
    }
}

proof fn lemma_fragment_stable(
    ix: IndexMap,
    defs: Seq<Definition>,
    rank: Seq<nat>,
    name: Seq<char>,
    j: int,
    r: nat,
    f1: nat,
    f2: nat,
)
    requires
        ranked_document(defs, rank),
        0 <= j < defs.len(),
        forall|k: int| 0 <= k < defs.len() && #[trigger] defs[k] is Fragment && defs[k]->Fragment_0.name@ == name ==> rank[k] < r,
        r <= f1,
        r <= f2,
        f1 > 0,
        f2 > 0,
    ensures
        fragment_coords(ix, defs, name, defs[j], f1) == fragment_coords(ix, defs, name, defs[j], f2),
    decreases 2 * f1, defs, 0int,
{
    if let Definition::Fragment(fr) = defs[j] {
        if fr.name@ == name {
            assert(defs[j] is Fragment);
            lemma_sels_stable(
                ix,
                defs,
                rank,
                fr.type_condition@,
                fr.selections@,
                fr.selections@.len() as int,
                rank[j],
                (f1 - 1) as nat,
                (f2 - 1) as nat,
            );
        }
    }
}

/// The nesting bound on spreads never cuts a document whose fragments are
/// free of cycles: its coordinates are the same under any larger bound.
pub proof fn lemma_bound_not_reached(ix: IndexMap, defs: Seq<Definition>, rank: Seq<nat>, fuel: nat)
    requires
        ranked_document(defs, rank),
        fuel >= defs.len(),
    ensures
        operations_coords(ix, defs, defs.len() as int, fuel) == document_coords(ix, defs),
{
    lemma_operations_stable(ix, defs, rank, defs.len() as int, fuel);
}

proof fn lemma_operations_stable(ix: IndexMap, defs: Seq<Definition>, rank: Seq<nat>, n: int, fuel: nat)
    requires
        ranked_document(defs, rank),
        fuel >= defs.len(),
    ensures
        operations_coords(ix, defs, n, fuel) == operations_coords(ix, defs, n, defs.len()),
    decreases n,
{
    if !(n <= 0 || n > defs.len()) {
        lemma_operations_stable(ix, defs, rank, n - 1, fuel);
        if let Definition::Operation(op) = defs[n - 1] {
            assert(defs[n - 1] is Operation);
            lemma_sels_stable(
                ix,
                defs,
                rank,
                root_key(op.kind),
                op.selections@,
                op.selections@.len() as int,
                defs.len(),
                fuel,
                defs.len(),
            );
        }
    }
}

/// In a document whose fragments are free of cycles, a spread of the one
/// fragment of its name gives, at the same nesting bound, the coordinates of
/// an inline fragment with that fragment's type condition and selections.
pub proof fn lemma_spread_is_inline_fragment_when_acyclic(
    ix: IndexMap,
    defs: Seq<Definition>,
    rank: Seq<nat>,
    p: Seq<char>,
    name: String,
    k: int,
    fuel: nat,
)
    requires
        ranked_document(defs, rank),
        fuel >= defs.len(),
        0 <= k < defs.len(),
        defs[k] is Fragment,
        defs[k]->Fragment_0.name@ == name@,
        forall|j: int|
            0 <= j < defs.len() && j != k ==> !(#[trigger] defs[j] is Fragment && defs[j]->Fragment_0.name@
                == name@),
    ensures
        selection_coords(ix, defs, p, Selection::FragmentSpread(name), fuel) == selection_coords(
            ix,
            defs,
            p,
            Selection::InlineFragment {
                type_condition: Some(defs[k]->Fragment_0.type_condition),
                selections: defs[k]->Fragment_0.selections,
            },
            fuel,
        ),
{
    let fr = defs[k]->Fragment_0;
    lemma_spread_is_inline_fragment(ix, defs, p, name, k, (fuel - 1) as nat);
    lemma_sels_stable(
        ix,
        defs,
        rank,
        fr.type_condition@,
        fr.selections@,
        fr.selections@.len() as int,
        rank[k],
        (fuel - 1) as nat,
        fuel,
    );
}

/// The parent key that an inline fragment's selections are read under.
pub open spec fn condition_key(type_condition: Option<String>, p: Seq<char>) -> Seq<char> {
    match type_condition {
        Some(t) => t@,
        None => p,
    }
}

/// The first `n` selections of `a` and `b`, read under `p`, agree but for
/// what lies below fields that their parent does not declare.
pub open spec fn selections_agree(ix: IndexMap, p: Seq<char>, a: Seq<Selection>, b: Seq<Selection>, n: int) -> bool
    decreases a, n,
{
    if n <= 0 || n > a.len() || n > b.len() {
        true
    } else {
        selections_agree(ix, p, a, b, n - 1) && selection_agrees(ix, p, a[n - 1], b[n - 1])
    }
}

/// `x` and `y`, read under `p`, agree but for what lies below fields that
/// their parent does not declare.
pub open spec fn selection_agrees(ix: IndexMap, p: Seq<char>, x: Selection, y: Selection) -> bool
    decreases x, 0int,
{
    match (x, y) {
        (Selection::Field(fx), Selection::Field(fy)) => fx.name@ == fy.name@ && (
        (ix.contains_key(p) && ix[p].fields.contains_key(fx.name@)) ==> (fx.selections@.len()
            == fy.selections@.len() && selections_agree(
            ix,
            ix[p].fields[fx.name@],
            fx.selections@,
            fy.selections@,
            fx.selections@.len() as int,
        ))),
        (Selection::FragmentSpread(a), Selection::FragmentSpread(b)) => a@ == b@,
        (
            Selection::InlineFragment { type_condition: tx, selections: sx },
            Selection::InlineFragment { type_condition: ty, selections: sy },
        ) => condition_key(tx, p) == condition_key(ty, p) && sx@.len() == sy@.len() && selections_agree(
            ix,
            condition_key(tx, p),
            sx@,
            sy@,
            sx@.len() as int,
        ),
        _ => false,
    }
}

/// Selection lists that agree but for what lies below undeclared fields give
/// the same coordinates: an unknown field's nested selections, anywhere in
/// the tree, add nothing.
pub proof fn lemma_unknown_subtrees_ignored(
    ix: IndexMap,
    defs: Seq<Definition>,
    p: Seq<char>,
    a: Seq<Selection>,
    b: Seq<Selection>,
    n: int,
    fuel: nat,
)
    requires
        n <= a.len(),
        n <= b.len(),
        selections_agree(ix, p, a, b, n),
    ensures
        selections_coords(ix, defs, p, a, n, fuel) == selections_coords(ix, defs, p, b, n, fuel),
    decreases a, n,
{
    if n > 0 {
        lemma_unknown_subtrees_ignored(ix, defs, p, a, b, n - 1, fuel);
        lemma_unknown_subtree_ignored(ix, defs, p, a[n - 1], b[n - 1], fuel);
    }
}

proof fn lemma_unknown_subtree_ignored(
    ix: IndexMap,
    defs: Seq<Definition>,
    p: Seq<char>,
    x: Selection,
    y: Selection,
    fuel: nat,
)
    requires
        selection_agrees(ix, p, x, y),
    ensures
        selection_coords(ix, defs, p, x, fuel) == selection_coords(ix, defs, p, y, fuel),
    decreases x, 0int,
{
    match (x, y) {
        (Selection::Field(fx), Selection::Field(fy)) => {
            if ix.contains_key(p) && ix[p].fields.contains_key(fx.name@) {
                lemma_unknown_subtrees_ignored(
                    ix,
                    defs,
                    ix[p].fields[fx.name@],
                    fx.selections@,
                    fy.selections@,
                    fx.selections@.len() as int,
                    fuel,
                );
            }
        },
        (
            Selection::InlineFragment { type_condition: tx, selections: sx },
            Selection::InlineFragment { type_condition: ty, selections: sy },
        ) => {
            lemma_unknown_subtrees_ignored(ix, defs, condition_key(tx, p), sx@, sy@, sx@.len() as int, fuel);
        },
        _ => {},
    }
}

} // verus!
