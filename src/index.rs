//! The type index: for each type name, the canonical name to report and the
//! named return type of each of its fields.
use vstd::prelude::*;
use vstd::string::StringExecFns;
use crate::ast::{named_type, FieldDef, SchemaItem, TypeDecl, TypeKind};

verus! {

/// What the index records of one type.
pub struct TypeEntry {
    pub name: Seq<char>,
    pub fields: Map<Seq<char>, Seq<char>>,
}

/// The index as a map from lookup key to entry.
pub type IndexMap = Map<Seq<char>, TypeEntry>;

pub open spec fn query_key() -> Seq<char> {
    seq!['Q', 'u', 'e', 'r', 'y']
}

pub open spec fn mutation_key() -> Seq<char> {
    seq!['M', 'u', 't', 'a', 't', 'i', 'o', 'n']
}

/// `m` with the first `n` of `fields` inserted in order: a later field of
/// one name replaces an earlier one.
pub open spec fn overlay_fields(m: Map<Seq<char>, Seq<char>>, fields: Seq<FieldDef>, n: int) -> Map<
    Seq<char>,
    Seq<char>,
>
    decreases n,
{
    if n <= 0 {
        m
    } else {
        overlay_fields(m, fields, n - 1).insert(
            fields[n - 1].name@,
            named_type(fields[n - 1].field_type),
        )
    }
}

/// The field map of a declaration: each field name to its named return type.
pub open spec fn field_map(fields: Seq<FieldDef>) -> Map<Seq<char>, Seq<char>> {
    overlay_fields(Map::empty(), fields, fields.len() as int)
}

/// The entry that a type declaration records, if it records one.
pub open spec fn declared(m: IndexMap, d: TypeDecl) -> IndexMap {
    match d.kind {
        TypeKind::Object | TypeKind::Interface => m.insert(
            d.name@,
            TypeEntry { name: d.name@, fields: field_map(d.fields@) },
        ),
        TypeKind::InputObject => m.insert(d.name@, TypeEntry { name: d.name@, fields: Map::empty() }),
        _ => m,
    }
}

/// The entries of the first `n` definitions' type declarations; a later
/// declaration of one name replaces an earlier one.
pub open spec fn declared_types(defs: Seq<SchemaItem>, n: int) -> IndexMap
    decreases n,
{
    if n <= 0 {
        Map::empty()
    } else {
        let m = declared_types(defs, n - 1);
        match defs[n - 1] {
            SchemaItem::Type(d) => declared(m, d),
            _ => m,
        }
    }
}

/// `m` with the fields of an object extension merged into the entry of its
/// type, which is created if absent.
pub open spec fn extended(m: IndexMap, d: TypeDecl) -> IndexMap {
    if d.kind == TypeKind::Object {
        let base = if m.contains_key(d.name@) {
            m[d.name@]
        } else {
            TypeEntry { name: d.name@, fields: Map::empty() }
        };
        m.insert(
            d.name@,
            TypeEntry { name: base.name, fields: overlay_fields(base.fields, d.fields@, d.fields@.len() as int) },
        )
    } else {
        m
    }
}

/// `m` with the first `n` definitions' extensions applied in order.
pub open spec fn extended_types(m: IndexMap, defs: Seq<SchemaItem>, n: int) -> IndexMap
    decreases n,
{
    if n <= 0 {
        m
    } else {
        let m2 = extended_types(m, defs, n - 1);
        match defs[n - 1] {
            SchemaItem::Extension(d) => extended(m2, d),
            _ => m2,
        }
    }
}

/// The query root named by the last schema block of the first `n`
/// definitions that names one, else `Query`.
pub open spec fn query_root(defs: Seq<SchemaItem>, n: int) -> Seq<char>
    decreases n,
{
    if n <= 0 {
        query_key()
    } else {
        match defs[n - 1] {
            SchemaItem::Schema(r) => match r.query {
                Some(q) => q@,
                None => query_root(defs, n - 1),
            },
            _ => query_root(defs, n - 1),
        }
    }
}

/// The mutation root named by the last schema block of the first `n`
/// definitions that names one, else `Mutation`.
pub open spec fn mutation_root(defs: Seq<SchemaItem>, n: int) -> Seq<char>
    decreases n,
{
    if n <= 0 {
        mutation_key()
    } else {
        match defs[n - 1] {
            SchemaItem::Schema(r) => match r.mutation {
                Some(q) => q@,
                None => mutation_root(defs, n - 1),
            },
            _ => mutation_root(defs, n - 1),
        }
    }
}

/// `m` with `key` made an alias of the root type `actual` when they differ.
pub open spec fn aliased(m: IndexMap, key: Seq<char>, actual: Seq<char>) -> IndexMap {
    if key == actual {
        m
    } else {
        let fields = if m.contains_key(actual) {
            m[actual].fields
        } else {
            Map::empty()
        };
        m.insert(key, TypeEntry { name: actual, fields })
    }
}

/// `m` with an empty entry named `key` under `key` where it has none.
pub open spec fn with_key(m: IndexMap, key: Seq<char>) -> IndexMap {
    if m.contains_key(key) {
        m
    } else {
        m.insert(key, TypeEntry { name: key, fields: Map::empty() })
    }
}

/// The index of a schema's definitions. The keys `Query` and `Mutation`
/// are always present as lookup entry points.
pub open spec fn index_of(defs: Seq<SchemaItem>) -> IndexMap {
    let n = defs.len() as int;
    let types = extended_types(declared_types(defs, n), defs, n);
    let roots = aliased(
        aliased(types, query_key(), query_root(defs, n)),
        mutation_key(),
        mutation_root(defs, n),
    );
    with_key(with_key(roots, query_key()), mutation_key())
}

/// The canonical name reported for a parent key: the entry's name where the
/// key is indexed, else the key itself.
pub open spec fn canonical(ix: IndexMap, key: Seq<char>) -> Seq<char> {
    if ix.contains_key(key) {
        ix[key].name
    } else {
        key
    }
}

/// One stored index entry; among entries of one key the last one counts.
pub struct TypeInfo {
    pub key: String,
    pub name: String,
    pub fields: Vec<(String, String)>,
}

/// A field list read as a map; a later pair of one name replaces an
/// earlier one.
pub open spec fn pairs_map(s: Seq<(String, String)>) -> Map<Seq<char>, Seq<char>>
    decreases s.len(),
{
    if s.len() == 0 {
        Map::empty()
    } else {
        pairs_map(s.drop_last()).insert(s.last().0@, s.last().1@)
    }
}

pub open spec fn entry_of(t: TypeInfo) -> TypeEntry {
    TypeEntry { name: t.name@, fields: pairs_map(t.fields@) }
}

/// Stored entries read as the index; a later entry of one key replaces an
/// earlier one.
pub open spec fn entries_map(s: Seq<TypeInfo>) -> IndexMap
    decreases s.len(),
{
    if s.len() == 0 {
        Map::empty()
    } else {
        entries_map(s.drop_last()).insert(s.last().key@, entry_of(s.last()))
    }
}

/// The position of the entry that counts for `key`, if any.
pub fn find_entry(types: &Vec<TypeInfo>, key: &String) -> (r: Option<usize>)
    ensures
        match r {
            None => !entries_map(types@).contains_key(key@),
            Some(i) => i < types@.len() && entries_map(types@).contains_key(key@)
                && entries_map(types@)[key@] == entry_of(types@[i as int]),
        },
{
    let mut i: usize = types.len();
    assert(types@.take(i as int) =~= types@);
    while i > 0
        invariant
            i <= types@.len(),
            entries_map(types@).contains_key(key@) == entries_map(types@.take(i as int)).contains_key(key@),
            entries_map(types@).contains_key(key@) ==> entries_map(types@)[key@]
                == entries_map(types@.take(i as int))[key@],
        decreases i,
    {
        assert(types@.take(i as int).drop_last() =~= types@.take(i - 1));
        if types[i - 1].key == *key {
            return Some(i - 1);
        }
        i = i - 1;
    }
    None
}

/// The position of the pair that counts for field `name`, if any.
pub fn find_field(fields: &Vec<(String, String)>, name: &String) -> (r: Option<usize>)
    ensures
        match r {
            None => !pairs_map(fields@).contains_key(name@),
            Some(i) => i < fields@.len() && pairs_map(fields@).contains_key(name@)
                && pairs_map(fields@)[name@] == fields@[i as int].1@,
        },
{
    let mut i: usize = fields.len();
    assert(fields@.take(i as int) =~= fields@);
    while i > 0
        invariant
            i <= fields@.len(),
            pairs_map(fields@).contains_key(name@) == pairs_map(fields@.take(i as int)).contains_key(name@),
            pairs_map(fields@).contains_key(name@) ==> pairs_map(fields@)[name@]
                == pairs_map(fields@.take(i as int))[name@],
        decreases i,
    {
        assert(fields@.take(i as int).drop_last() =~= fields@.take(i - 1));
        if fields[i - 1].0 == *name {
            return Some(i - 1);
        }
        i = i - 1;
    }
    None
}

/// Appends each declared field with its named return type.
fn overlay_pairs(out: &mut Vec<(String, String)>, fields: &Vec<FieldDef>)
    ensures
        pairs_map(final(out)@) == overlay_fields(pairs_map(old(out)@), fields@, fields@.len() as int),
{
    let ghost start = pairs_map(out@);
    let mut j: usize = 0;
    while j < fields.len()
        invariant
            j <= fields@.len(),
            pairs_map(out@) == overlay_fields(start, fields@, j as int),
        decreases fields@.len() - j,
    {
        let pair = (fields[j].name.clone(), fields[j].field_type.named());
        let ghost before = out@;
        out.push(pair);
        assert(out@.drop_last() =~= before);
        j = j + 1;
    }
}

/// A copy of a field list.
fn copy_pairs(src: &Vec<(String, String)>) -> (r: Vec<(String, String)>)
    ensures
        pairs_map(r@) == pairs_map(src@),
{
    let mut r: Vec<(String, String)> = Vec::new();
    let mut j: usize = 0;
    assert(src@.take(0) =~= Seq::<(String, String)>::empty());
    while j < src.len()
        invariant
            j <= src@.len(),
            pairs_map(r@) == pairs_map(src@.take(j as int)),
        decreases src@.len() - j,
    {
        let pair = (src[j].0.clone(), src[j].1.clone());
        let ghost before = r@;
        r.push(pair);
        assert(r@.drop_last() =~= before);
        assert(src@.take(j + 1).drop_last() =~= src@.take(j as int));
        j = j + 1;
    }
    assert(src@.take(src@.len() as int) =~= src@);
    r
}

/// Appends an entry, which then counts for its key.
fn push_entry(types: &mut Vec<TypeInfo>, t: TypeInfo)
    ensures
        entries_map(final(types)@) == entries_map(old(types)@).insert(t.key@, entry_of(t)),
{
    let ghost before = types@;
    types.push(t);
    assert(types@.drop_last() =~= before);
}

/// Records a type declaration.
fn declare(types: &mut Vec<TypeInfo>, d: &TypeDecl)
    ensures
        entries_map(final(types)@) == declared(entries_map(old(types)@), *d),
{
    match d.kind {
        TypeKind::Object | TypeKind::Interface => {
            let mut fields: Vec<(String, String)> = Vec::new();
            overlay_pairs(&mut fields, &d.fields);
            push_entry(types, TypeInfo { key: d.name.clone(), name: d.name.clone(), fields });
        },
        TypeKind::InputObject => {
            push_entry(types, TypeInfo { key: d.name.clone(), name: d.name.clone(), fields: Vec::new() });
        },
        _ => {},
    }
}

/// Merges an object extension into the entry of its type.
fn extend(types: &mut Vec<TypeInfo>, d: &TypeDecl)
    ensures
        entries_map(final(types)@) == extended(entries_map(old(types)@), *d),
{
    if d.kind == TypeKind::Object {
        let (name, mut fields) = match find_entry(types, &d.name) {
            Some(k) => (types[k].name.clone(), copy_pairs(&types[k].fields)),
            None => (d.name.clone(), Vec::new()),
        };
        overlay_pairs(&mut fields, &d.fields);
        push_entry(types, TypeInfo { key: d.name.clone(), name, fields });
    }
}

/// Makes `key` an alias of the root type `actual` when they differ.
fn alias(types: &mut Vec<TypeInfo>, key: String, actual: &String)
    ensures
        entries_map(final(types)@) == aliased(entries_map(old(types)@), key@, actual@),
{
    if !(key == *actual) {
        let fields = match find_entry(types, actual) {
            Some(k) => copy_pairs(&types[k].fields),
            None => Vec::new(),
        };
        push_entry(types, TypeInfo { key, name: actual.clone(), fields });
    }
}

/// Adds an empty entry under `key` where there is none.
fn add_missing_key(types: &mut Vec<TypeInfo>, key: String)
    ensures
        entries_map(final(types)@) == with_key(entries_map(old(types)@), key@),
{
    if find_entry(types, &key).is_none() {
        push_entry(types, TypeInfo { key: key.clone(), name: key, fields: Vec::new() });
        assert(pairs_map(Seq::<(String, String)>::empty()) =~= Map::<Seq<char>, Seq<char>>::empty());
    }
}

/// Builds the index of a schema's definitions.
pub fn build_index(defs: &Vec<SchemaItem>) -> (r: Vec<TypeInfo>)
    ensures
        entries_map(r@) == index_of(defs@),
{
    let mut query = String::from_str("Query");
    let mut mutation = String::from_str("Mutation");
    proof {
        reveal_strlit("Query");
        reveal_strlit("Mutation");
        assert(query@ =~= query_key());
        assert(mutation@ =~= mutation_key());
    }
    let mut i: usize = 0;
    while i < defs.len()
        invariant
            i <= defs@.len(),
            query@ == query_root(defs@, i as int),
            mutation@ == mutation_root(defs@, i as int),
        decreases defs@.len() - i,
    {
        if let SchemaItem::Schema(roots) = &defs[i] {
            if let Some(q) = &roots.query {
                query = q.clone();
            }
            if let Some(m) = &roots.mutation {
                mutation = m.clone();
            }
        }
        i = i + 1;
    }
    let mut types: Vec<TypeInfo> = Vec::new();
    let mut i: usize = 0;
    while i < defs.len()
        invariant
            i <= defs@.len(),
            entries_map(types@) == declared_types(defs@, i as int),
        decreases defs@.len() - i,
    {
        if let SchemaItem::Type(d) = &defs[i] {
            declare(&mut types, d);
        }
        i = i + 1;
    }
    let mut i: usize = 0;
    while i < defs.len()
        invariant
            i <= defs@.len(),
            entries_map(types@) == extended_types(declared_types(defs@, defs@.len() as int), defs@, i as int),
        decreases defs@.len() - i,
    {
        if let SchemaItem::Extension(d) = &defs[i] {
            extend(&mut types, d);
        }
        i = i + 1;
    }
    alias(&mut types, String::from_str("Query"), &query);
    alias(&mut types, String::from_str("Mutation"), &mutation);
    add_missing_key(&mut types, String::from_str("Query"));
    add_missing_key(&mut types, String::from_str("Mutation"));
    proof {
        reveal_strlit("Query");
        reveal_strlit("Mutation");
    }
    types
}

} // verus!
