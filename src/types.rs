//! Names of the type declarations, given in dependency order.
use vstd::prelude::*;
use std::collections::HashMap;
use cairo_lang_sierra::algorithm::topological_order::reverse_topological_ordering;
use cairo_lang_sierra::ids::UserTypeId as SierraUserTypeId;
use cairo_lang_sierra::program::StatementIdx;
use crate::program::{GenericArg, MapError, Program, TypeDeclaration};
use crate::utils::{decimal_digits, decimal_of, format_generic_args, formatted, fragments, renderable};

verus! {

broadcast use vstd::std_specs::hash::group_hash_axioms;

/// The user-type id that cairo-lang-sierra derives from a type's source name,
/// as little-endian base-2^32 digits.
pub uninterp spec fn user_type_id_of(name: Seq<char>) -> Seq<u32>;

/// Relies on cairo-lang-sierra's `UserTypeId::from_string`, which hashes the
/// name, and on num-bigint's `to_u32_digits` for the digits of the result.
#[verifier::external_body]
fn user_type_id(name: &str) -> (r: Vec<u32>)
    ensures
        r@ == user_type_id_of(name@),
{
    SierraUserTypeId::from_string(name).id.to_u32_digits()
}

/// `x` stands among the first `p` entries of `o`.
pub open spec fn placed_before(o: Seq<usize>, p: int, x: usize) -> bool {
    exists|q: int| 0 <= q < p && o[q] == x
}

/// `o` lists every node of the graph once, each after all of its children.
pub open spec fn is_dependency_order(children: Seq<Vec<usize>>, o: Seq<usize>) -> bool {
    &&& o.len() == children.len()
    &&& forall|p: int, q: int| 0 <= p < q < o.len() ==> o[p] != o[q]
    &&& forall|p: int| 0 <= p < o.len() ==> o[p] < children.len()
    &&& forall|i: usize| i < children.len() ==> #[trigger] o.contains(i)
    &&& forall|p: int, k: int|
        0 <= p < o.len() && 0 <= k < children[o[p] as int]@.len() ==> #[trigger] placed_before(
            o,
            p,
            children[o[p] as int]@[k],
        )
}

/// Relies on cairo-lang-sierra's `reverse_topological_ordering` with cycle
/// detection and every node as a root: a depth-first walk that emits each node
/// after its children, and fails only on reaching a node whose walk is still
/// in progress, that is on a cycle.
#[verifier::external_body]
fn dependency_order(children: &Vec<Vec<usize>>) -> (r: Option<Vec<usize>>)
    requires
        forall|i: int, k: int|
            0 <= i < children@.len() && 0 <= k < children@[i]@.len() ==> #[trigger] children@[i]@[k]
                < children@.len(),
    ensures
        match r {
            Some(o) => is_dependency_order(children@, o@),
            None => !exists|o: Seq<usize>| is_dependency_order(children@, o),
        },
{
    let ordering = reverse_topological_ordering(
        true,
        (0..children.len()).map(StatementIdx),
        children.len(),
        |StatementIdx(i)| Ok::<_, ()>(children[i].iter().copied().map(StatementIdx).collect::<Vec<_>>()),
        |_| (),
    );
    ordering.ok().map(|o| o.into_iter().map(|StatementIdx(i)| i).collect())
}

/// Some declaration has id `t`.
pub open spec fn declares(decls: Seq<TypeDeclaration>, t: u64) -> bool {
    exists|j: int| 0 <= j < decls.len() && decls[j].id == t
}

/// No two declarations share an id.
pub open spec fn unique_ids(decls: Seq<TypeDeclaration>) -> bool {
    forall|i: int, j: int| 0 <= i < j < decls.len() ==> decls[i].id != decls[j].id
}

/// The argument is not a libfunc, and a type it names is declared.
pub open spec fn arg_ok(decls: Seq<TypeDeclaration>, arg: GenericArg) -> bool {
    match arg {
        GenericArg::Type(t) => declares(decls, t),
        GenericArg::Libfunc(_) => false,
        _ => true,
    }
}

/// Every argument of the list is admissible.
pub open spec fn args_ok(decls: Seq<TypeDeclaration>, args: Seq<GenericArg>) -> bool {
    forall|a: int| 0 <= a < args.len() ==> arg_ok(decls, #[trigger] args[a])
}

/// Every argument of every type declaration is admissible.
pub open spec fn type_args_ok(decls: Seq<TypeDeclaration>) -> bool {
    forall|i: int| 0 <= i < decls.len() ==> args_ok(decls, #[trigger] decls[i].generic_args@)
}

/// `o` lists every declaration once, each after the declarations of the types
/// it names.
pub open spec fn is_type_order(decls: Seq<TypeDeclaration>, o: Seq<usize>) -> bool {
    &&& o.len() == decls.len()
    &&& forall|p: int, q: int| 0 <= p < q < o.len() ==> o[p] != o[q]
    &&& forall|p: int| 0 <= p < o.len() ==> o[p] < decls.len()
    &&& forall|i: usize| i < decls.len() ==> #[trigger] o.contains(i)
    &&& forall|p: int, a: int|
        #![trigger decls[o[p] as int].generic_args@[a]]
        0 <= p < o.len() && 0 <= a < decls[o[p] as int].generic_args@.len()
            && decls[o[p] as int].generic_args@[a] is Type ==> exists|q: int|
            0 <= q < p && decls[o[q] as int].id == decls[o[p] as int].generic_args@[a]->Type_0
}

/// The type declarations depend on each other without a cycle.
pub open spec fn acyclic(decls: Seq<TypeDeclaration>) -> bool {
    exists|o: Seq<usize>| is_type_order(decls, o)
}

/// The name given to a user type by the caller: the last entry for its id.
pub open spec fn override_for(overrides: Seq<(Vec<u32>, String)>, key: Seq<u32>) -> Option<Seq<char>>
    decreases overrides.len(),
{
    if overrides.len() == 0 {
        None
    } else if overrides.last().0@ == key {
        Some(overrides.last().1@)
    } else {
        override_for(overrides.drop_last(), key)
    }
}

/// `name<args>`, or `name` alone where the arguments render to nothing.
pub open spec fn with_args(name: Seq<char>, args: Seq<char>) -> Seq<char> {
    if args.len() == 0 {
        name
    } else {
        name + "<"@ + args + ">"@
    }
}

/// The name of a type declaration, given the names of types and functions.
pub open spec fn declared_type_name(
    types: Map<u64, String>,
    funcs: Map<u64, String>,
    overrides: Seq<(Vec<u32>, String)>,
    tuple_id: Seq<u32>,
    d: TypeDeclaration,
) -> Seq<char> {
    let args = d.generic_args@;
    let rendered = formatted(types, funcs, args);
    if args.len() > 0 && args[0] is UserType {
        let ut = args[0]->UserType_0;
        if d.generic_id@ == "Struct"@ && ut.id@ == tuple_id {
            if rendered.len() == 0 {
                "Unit"@
            } else {
                "Tuple"@ + "<"@ + rendered + ">"@
            }
        } else {
            match override_for(overrides, ut.id@) {
                Some(n) => n,
                None => match ut.debug_name {
                    Some(n) => n@,
                    None => "ut@"@ + decimal_of(false, ut.id@),
                },
            }
        }
    } else {
        with_args(d.generic_id@, rendered)
    }
}

/// `names` holds exactly the declared type ids, each with the name that its
/// declaration gets over `names` itself.
pub open spec fn names_types(
    decls: Seq<TypeDeclaration>,
    funcs: Map<u64, String>,
    overrides: Seq<(Vec<u32>, String)>,
    tuple_id: Seq<u32>,
    names: Map<u64, String>,
) -> bool {
    &&& forall|t: u64| #[trigger] names.contains_key(t) <==> declares(decls, t)
    &&& forall|i: int|
        0 <= i < decls.len() ==> names[#[trigger] decls[i].id]@ == declared_type_name(
            names,
            funcs,
            overrides,
            tuple_id,
            decls[i],
        )
}

/// Whether two digit sequences are equal.
pub(crate) fn same_digits(a: &Vec<u32>, b: &Vec<u32>) -> (r: bool)
    ensures
        r == (a@ == b@),
{
    if a.len() != b.len() {
        return false;
    }
    let mut i: usize = 0;
    while i < a.len()
        invariant
            i <= a@.len(),
            a@.len() == b@.len(),
            forall|k: int| 0 <= k < i ==> a@[k] == b@[k],
        decreases a@.len() - i,
    {
        if a[i] != b[i] {
            return false;
        }
        i = i + 1;
    }
    assert(a@ =~= b@);
    true
}

/// The name the caller gave to the user type `key`, if any; a later entry
/// takes precedence over an earlier one.
pub fn find_override(overrides: &Vec<(Vec<u32>, String)>, key: &Vec<u32>) -> (r: Option<String>)
    ensures
        match r {
            Some(n) => override_for(overrides@, key@) == Some(n@),
            None => override_for(overrides@, key@) is None,
        },
{
    let mut j: usize = overrides.len();
    assert(overrides@.subrange(0, j as int) =~= overrides@);
    while j > 0
        invariant
            j <= overrides@.len(),
            override_for(overrides@, key@) == override_for(overrides@.subrange(0, j as int), key@),
        decreases j,
    {
        let ghost pre = overrides@.subrange(0, j as int);
        assert(pre.drop_last() =~= overrides@.subrange(0, j - 1));
        j = j - 1;
        if same_digits(&overrides[j].0, key) {
            return Some(overrides[j].1.clone());
        }
    }
    None
}

/// The index of the first declaration with id `t`, if any.
fn position_of(decls: &Vec<TypeDeclaration>, t: u64) -> (r: Option<usize>)
    ensures
        match r {
            Some(j) => j < decls@.len() && decls@[j as int].id == t,
            None => !declares(decls@, t),
        },
{
    let mut j: usize = 0;
    while j < decls.len()
        invariant
            j <= decls@.len(),
            forall|k: int| 0 <= k < j ==> decls@[k].id != t,
        decreases decls@.len() - j,
    {
        if decls[j].id == t {
            return Some(j);
        }
        j = j + 1;
    }
    None
}

/// Whether no two type declarations share an id.
pub fn type_ids_unique(decls: &Vec<TypeDeclaration>) -> (r: bool)
    ensures
        r == unique_ids(decls@),
{
    let mut j: usize = 0;
    while j < decls.len()
        invariant
            j <= decls@.len(),
            forall|a: int, b: int| 0 <= a < b < decls@.len() && a < j ==> decls@[a].id != decls@[b].id,
        decreases decls@.len() - j,
    {
        let mut k: usize = j + 1;
        while k < decls.len()
            invariant
                j < k <= decls@.len(),
                forall|a: int, b: int| 0 <= a < b < decls@.len() && a < j ==> decls@[a].id != decls@[b].id,
                forall|b: int| j < b < k ==> decls@[j as int].id != decls@[b].id,
            decreases decls@.len() - k,
        {
            if decls[j].id == decls[k].id {
                return false;
            }
            k = k + 1;
        }
        j = j + 1;
    }
    true
}

/// Some argument of the list is `Type(t)`.
pub open spec fn refers_to(args: Seq<GenericArg>, t: u64) -> bool {
    exists|a: int| 0 <= a < args.len() && args[a] == GenericArg::Type(t)
}

/// Each child of a declaration is a declaration whose type it names.
pub open spec fn rows_sound(decls: Seq<TypeDeclaration>, rows: Seq<Vec<usize>>) -> bool {
    &&& rows.len() == decls.len()
    &&& forall|i: int, k: int|
        0 <= i < rows.len() && 0 <= k < rows[i]@.len() ==> #[trigger] rows[i]@[k] < decls.len()
            && refers_to(decls[i].generic_args@, decls[rows[i]@[k] as int].id)
}

/// Each type that a declaration names is the id of one of its children.
pub open spec fn rows_complete(decls: Seq<TypeDeclaration>, rows: Seq<Vec<usize>>) -> bool {
    forall|i: int, a: int|
        #![trigger decls[i].generic_args@[a]]
        0 <= i < rows.len() && 0 <= a < decls[i].generic_args@.len()
            && decls[i].generic_args@[a] is Type ==> exists|k: int|
            0 <= k < rows[i]@.len() && decls[rows[i]@[k] as int].id
                == decls[i].generic_args@[a]->Type_0
}

/// The dependency graph of the declarations, as the indices of the
/// declarations that each one names; fails on an inadmissible argument.
fn dependency_rows(decls: &Vec<TypeDeclaration>) -> (r: Result<Vec<Vec<usize>>, MapError>)
    ensures
        match r {
            Ok(rows) => type_args_ok(decls@) && rows_sound(decls@, rows@) && rows_complete(
                decls@,
                rows@,
            ),
            Err(e) => e is InvalidArgument && !type_args_ok(decls@),
        },
{
    let ghost ds = decls@;
    let mut rows: Vec<Vec<usize>> = Vec::new();
    let mut i: usize = 0;
    while i < decls.len()
        invariant
            ds == decls@,
            i <= ds.len(),
            rows@.len() == i,
            forall|x: int| 0 <= x < i ==> args_ok(ds, #[trigger] ds[x].generic_args@),
            forall|x: int, k: int|
                0 <= x < i && 0 <= k < rows@[x]@.len() ==> #[trigger] rows@[x]@[k] < ds.len()
                    && refers_to(ds[x].generic_args@, ds[rows@[x]@[k] as int].id),
            forall|x: int, a: int|
                #![trigger ds[x].generic_args@[a]]
                0 <= x < i && 0 <= a < ds[x].generic_args@.len() && ds[x].generic_args@[a] is Type
                    ==> exists|k: int|
                    0 <= k < rows@[x]@.len() && ds[rows@[x]@[k] as int].id
                        == ds[x].generic_args@[a]->Type_0,
        decreases ds.len() - i,
    {
        let args = &decls[i].generic_args;
        let ghost gs = args@;
        let mut row: Vec<usize> = Vec::new();
        let mut a: usize = 0;
        while a < args.len()
            invariant
                ds == decls@,
                i < ds.len(),
                gs == args@,
                gs == ds[i as int].generic_args@,
                a <= gs.len(),
                forall|b: int| 0 <= b < a ==> arg_ok(ds, #[trigger] gs[b]),
                forall|k: int|
                    0 <= k < row@.len() ==> #[trigger] row@[k] < ds.len() && refers_to(
                        gs,
                        ds[row@[k] as int].id,
                    ),
                forall|b: int|
                    #![trigger gs[b]]
                    0 <= b < a && gs[b] is Type ==> exists|k: int|
                        0 <= k < row@.len() && ds[row@[k] as int].id == gs[b]->Type_0,
            decreases gs.len() - a,
        {
            match &args[a] {
                GenericArg::Type(t) => {
                    match position_of(decls, *t) {
                        Some(j) => {
                            proof {
                                assert(gs[a as int] == GenericArg::Type(ds[j as int].id));
                                assert(refers_to(gs, ds[j as int].id));
                            }
                            let ghost before = row@;
                            row.push(j);
                            proof {
                                assert(row@ == before.push(j));
                                assert forall|b: int|
                                    #![trigger gs[b]]
                                    0 <= b <= a && gs[b] is Type implies exists|k: int|
                                        0 <= k < row@.len() && ds[row@[k] as int].id
                                            == gs[b]->Type_0 by {
                                    if b == a {
                                        assert(row@[row@.len() - 1] == j);
                                    } else {
                                        let k = choose|k: int|
                                            0 <= k < before.len() && ds[before[k] as int].id
                                                == gs[b]->Type_0;
                                        assert(row@[k] == before[k]);
                                    }
                                }
                            }
                        },
                        None => {
                            proof {
                                assert(!arg_ok(ds, gs[a as int]));
                                assert(!args_ok(ds, ds[i as int].generic_args@));
                            }
                            return Err(MapError::InvalidArgument);
                        },
                    }
                },
                GenericArg::Libfunc(_) => {
                    proof {
                        assert(!arg_ok(ds, gs[a as int]));
                        assert(!args_ok(ds, ds[i as int].generic_args@));
                    }
                    return Err(MapError::InvalidArgument);
                },
                _ => {},
            }
            a = a + 1;
        }
        let ghost rows_before = rows@;
        let ghost row_view = row@;
        rows.push(row);
        proof {
            assert(rows@ == rows_before.push(row));
            assert(rows@[i as int]@ == row_view);
            assert forall|x: int, a: int|
                #![trigger ds[x].generic_args@[a]]
                0 <= x <= i && 0 <= a < ds[x].generic_args@.len() && ds[x].generic_args@[a] is Type
                    implies exists|k: int|
                    0 <= k < rows@[x]@.len() && ds[rows@[x]@[k] as int].id
                        == ds[x].generic_args@[a]->Type_0 by {
                if x == i {
                    assert(gs[a] is Type);
                    let k = choose|k: int|
                        0 <= k < row_view.len() && ds[row_view[k] as int].id == gs[a]->Type_0;
                    assert(rows@[x]@[k] == row_view[k]);
                } else {
                    assert(rows@[x] == rows_before[x]);
                }
            }
            assert(args_ok(ds, ds[i as int].generic_args@));
        }
        i = i + 1;
    }
    Ok(rows)
}

/// Over sound and complete rows and unique ids, an order of the dependency
/// graph is exactly an order of the declarations.
proof fn lemma_orders_agree(decls: Seq<TypeDeclaration>, rows: Seq<Vec<usize>>, o: Seq<usize>)
    requires
        rows_sound(decls, rows),
        rows_complete(decls, rows),
        unique_ids(decls),
    ensures
        is_dependency_order(rows, o) <==> is_type_order(decls, o),
{
    if is_dependency_order(rows, o) {
        assert forall|p: int, a: int|
            #![trigger decls[o[p] as int].generic_args@[a]]
            0 <= p < o.len() && 0 <= a < decls[o[p] as int].generic_args@.len()
                && decls[o[p] as int].generic_args@[a] is Type implies exists|q: int|
                0 <= q < p && decls[o[q] as int].id == decls[o[p] as int].generic_args@[a]->Type_0 by {
            let i = o[p] as int;
            let k = choose|k: int|
                0 <= k < rows[i]@.len() && decls[rows[i]@[k] as int].id
                    == decls[i].generic_args@[a]->Type_0;
            assert(placed_before(o, p, rows[o[p] as int]@[k]));
            let q = choose|q: int| 0 <= q < p && o[q] == rows[o[p] as int]@[k];
            assert(decls[o[q] as int].id == decls[o[p] as int].generic_args@[a]->Type_0);
        }
        assert(is_type_order(decls, o));
    }
    if is_type_order(decls, o) {
        assert forall|p: int, k: int|
            0 <= p < o.len() && 0 <= k < rows[o[p] as int]@.len() implies #[trigger] placed_before(
                o,
                p,
                rows[o[p] as int]@[k],
            ) by {
            let i = o[p] as int;
            let d = rows[i]@[k];
            assert(d < decls.len());
            assert(refers_to(decls[i].generic_args@, decls[d as int].id));
            let a = choose|a: int|
                0 <= a < decls[i].generic_args@.len() && decls[i].generic_args@[a]
                    == GenericArg::Type(decls[d as int].id);
            assert(decls[o[p] as int].generic_args@[a] is Type);
            let q = choose|q: int|
                0 <= q < p && decls[o[q] as int].id == decls[o[p] as int].generic_args@[a]->Type_0;
            assert(o[q] == d);
        }
        assert(o.len() == rows.len());
        assert(is_dependency_order(rows, o));
    }
}

/// Two name tables hold the same ids, with the same text for each.
pub open spec fn same_names(a: Map<u64, String>, b: Map<u64, String>) -> bool {
    forall|k: u64|
        #[trigger] a.contains_key(k) == b.contains_key(k) && (a.contains_key(k) ==> a[k]@ == b[k]@)
}

/// The rendering of arguments is the same over two type tables that agree on
/// every type the arguments name, and over two function tables that agree.
pub proof fn lemma_fragments_stable(
    m1: Map<u64, String>,
    m2: Map<u64, String>,
    f1: Map<u64, String>,
    f2: Map<u64, String>,
    args: Seq<GenericArg>,
)
    requires
        forall|a: int|
            0 <= a < args.len() && #[trigger] args[a] is Type ==> m1.contains_key(args[a]->Type_0)
                && m2.contains_key(args[a]->Type_0) && m1[args[a]->Type_0]@ == m2[args[a]->Type_0]@,
        same_names(f1, f2),
    ensures
        fragments(m1, f1, args) == fragments(m2, f2, args),
    decreases args.len(),
{
    if args.len() > 0 {
        let pre = args.drop_last();
        assert forall|a: int|
            0 <= a < pre.len() && #[trigger] pre[a] is Type implies m1.contains_key(pre[a]->Type_0)
                && m2.contains_key(pre[a]->Type_0) && m1[pre[a]->Type_0]@ == m2[pre[a]->Type_0]@ by {
            assert(pre[a] == args[a]);
        }
        lemma_fragments_stable(m1, m2, f1, f2, pre);
        assert(args.last() == args[args.len() - 1]);
        if args.last() is UserFunc {
            assert(f1.contains_key(args.last()->UserFunc_0) == f2.contains_key(args.last()->UserFunc_0));
        }
    }
}

/// An order of the type declarations in which each comes after the
/// declarations of the types it names; fails where the ids are not unique,
/// where an argument is inadmissible, or on a cycle.
pub fn type_order(decls: &Vec<TypeDeclaration>) -> (r: Result<Vec<usize>, MapError>)
    ensures
        match r {
            Ok(o) => unique_ids(decls@) && type_args_ok(decls@) && is_type_order(decls@, o@),
            Err(MapError::DuplicateTypeId) => !unique_ids(decls@),
            Err(MapError::InvalidArgument) => unique_ids(decls@) && !type_args_ok(decls@),
            Err(MapError::Cycle) => unique_ids(decls@) && type_args_ok(decls@) && !acyclic(decls@),
        },
{
    if !type_ids_unique(decls) {
        return Err(MapError::DuplicateTypeId);
    }
    let rows = match dependency_rows(decls) {
        Ok(rows) => rows,
        Err(e) => {
            return Err(e);
        },
    };
    match dependency_order(&rows) {
        Some(o) => {
            proof {
                lemma_orders_agree(decls@, rows@, o@);
            }
            Ok(o)
        },
        None => {
            proof {
                assert forall|o: Seq<usize>| !is_type_order(decls@, o) by {
                    lemma_orders_agree(decls@, rows@, o);
                }
            }
            Err(MapError::Cycle)
        },
    }
}

/// The name of one type declaration over the current tables.
fn name_type(
    d: &TypeDeclaration,
    names: &HashMap<u64, String>,
    funcs: &HashMap<u64, String>,
    overrides: &Vec<(Vec<u32>, String)>,
    tuple_id: &Vec<u32>,
) -> (r: String)
    requires
        renderable(names@, d.generic_args@),
    ensures
        r@ == declared_type_name(names@, funcs@, overrides@, tuple_id@, *d),
{
    let rendered = format_generic_args(names, funcs, &d.generic_args);
    if d.generic_args.len() > 0 {
        if let GenericArg::UserType(ut) = &d.generic_args[0] {
            let structure = String::from_str("Struct");
            if d.generic_id == structure && same_digits(&ut.id, tuple_id) {
                if rendered.as_str().is_empty() {
                    return String::from_str("Unit");
                }
                let mut name = String::from_str("Tuple");
                name.append("<");
                name.append(rendered.as_str());
                name.append(">");
                return name;
            }
            return match find_override(overrides, &ut.id) {
                Some(n) => n,
                None => match &ut.debug_name {
                    Some(n) => n.clone(),
                    None => {
                        let mut name = String::from_str("ut@");
                        let digits = decimal_digits(&ut.id);
                        name.append(digits.as_str());
                        name
                    },
                },
            };
        }
    }
    if rendered.as_str().is_empty() {
        d.generic_id.clone()
    } else {
        let mut name = d.generic_id.clone();
        name.append("<");
        name.append(rendered.as_str());
        name.append(">");
        name
    }
}

/// Some of the first `p` declarations of the order has id `t`.
pub open spec fn named_before(decls: Seq<TypeDeclaration>, o: Seq<usize>, p: int, t: u64) -> bool {
    exists|q: int| 0 <= q < p && decls[o[q] as int].id == t
}

/// Names every type declaration, with `tuple_id` as the user-type id of
/// tuples: each name is computed after those of the types it names.
pub fn name_types(
    decls: &Vec<TypeDeclaration>,
    func_names: &HashMap<u64, String>,
    overrides: &Vec<(Vec<u32>, String)>,
    tuple_id: &Vec<u32>,
) -> (r: Result<HashMap<u64, String>, MapError>)
    ensures
        match r {
            Ok(names) => unique_ids(decls@) && type_args_ok(decls@) && acyclic(decls@)
                && names_types(decls@, func_names@, overrides@, tuple_id@, names@),
            Err(MapError::DuplicateTypeId) => !unique_ids(decls@),
            Err(MapError::InvalidArgument) => unique_ids(decls@) && !type_args_ok(decls@),
            Err(MapError::Cycle) => unique_ids(decls@) && type_args_ok(decls@) && !acyclic(decls@),
        },
{
    let order = match type_order(decls) {
        Ok(o) => o,
        Err(e) => {
            return Err(e);
        },
    };
    let ghost ds = decls@;
    let ghost os = order@;
    let ghost funcs = func_names@;
    let ghost ovs = overrides@;
    let ghost tid = tuple_id@;
    let mut names: HashMap<u64, String> = HashMap::new();
    let mut p: usize = 0;
    while p < order.len()
        invariant
            ds == decls@,
            os == order@,
            funcs == func_names@,
            ovs == overrides@,
            tid == tuple_id@,
            unique_ids(ds),
            type_args_ok(ds),
            is_type_order(ds, os),
            p <= os.len(),
            forall|t: u64| #[trigger] names@.contains_key(t) <==> named_before(ds, os, p as int, t),
            forall|q: int|
                0 <= q < p ==> names@[#[trigger] ds[os[q] as int].id]@ == declared_type_name(
                    names@,
                    funcs,
                    ovs,
                    tid,
                    ds[os[q] as int],
                ),
        decreases os.len() - p,
    {
        let idx = order[p];
        let d = &decls[idx];
        let ghost args = d.generic_args@;
        proof {
            assert(args_ok(ds, ds[idx as int].generic_args@));
            assert forall|a: int| 0 <= a < args.len() implies match #[trigger] args[a] {
                GenericArg::Type(id) => names@.contains_key(id),
                GenericArg::Libfunc(_) => false,
                _ => true,
            } by {
                assert(arg_ok(ds, args[a]));
                if args[a] is Type {
                    assert(ds[os[p as int] as int].generic_args@[a] is Type);
                    let q = choose|q: int|
                        0 <= q < p && ds[os[q] as int].id
                            == ds[os[p as int] as int].generic_args@[a]->Type_0;
                    assert(named_before(ds, os, p as int, args[a]->Type_0));
                }
            }
        }
        let name = name_type(d, &names, func_names, overrides, tuple_id);
        let ghost before = names@;
        names.insert(d.id, name);
        proof {
            if before.contains_key(d.id) {
                let q = choose|q: int| 0 <= q < p && ds[os[q] as int].id == d.id;
                assert(os[q] != os[p as int]);
            }
            assert forall|t: u64| #[trigger]
                names@.contains_key(t) <==> named_before(ds, os, p + 1, t) by {
                if named_before(ds, os, p + 1, t) && t != d.id {
                    let q = choose|q: int| 0 <= q < p + 1 && ds[os[q] as int].id == t;
                    assert(q < p);
                    assert(named_before(ds, os, p as int, t));
                }
                if t == d.id {
                    assert(ds[os[p as int] as int].id == t);
                }
            }
            assert forall|q: int|
                0 <= q <= p implies names@[#[trigger] ds[os[q] as int].id]@ == declared_type_name(
                    names@,
                    funcs,
                    ovs,
                    tid,
                    ds[os[q] as int],
                ) by {
                let dq = ds[os[q] as int];
                let gq = dq.generic_args@;
                assert forall|a: int|
                    0 <= a < gq.len() && #[trigger] gq[a] is Type implies before.contains_key(
                        gq[a]->Type_0,
                    ) && names@.contains_key(gq[a]->Type_0) && before[gq[a]->Type_0]
                        == names@[gq[a]->Type_0] by {
                    assert(ds[os[q] as int].generic_args@[a] is Type);
                    let q2 = choose|q2: int|
                        0 <= q2 < q && ds[os[q2] as int].id
                            == ds[os[q] as int].generic_args@[a]->Type_0;
                    assert(named_before(ds, os, p as int, gq[a]->Type_0));
                }
                lemma_fragments_stable(before, names@, funcs, funcs, gq);
                if q < p {
                    assert(ds[os[q] as int].id != d.id);
                }
            }
        }
        p = p + 1;
    }
    proof {
        assert forall|t: u64| #[trigger] names@.contains_key(t) <==> declares(ds, t) by {
            if declares(ds, t) {
                let j = choose|j: int| 0 <= j < ds.len() && ds[j].id == t;
                assert(os.contains(j as usize));
                let q = choose|q: int| 0 <= q < os.len() && os[q] == j as usize;
                assert(named_before(ds, os, p as int, t));
            }
        }
        assert forall|i: int| 0 <= i < ds.len() implies names@[#[trigger] ds[i].id]@
            == declared_type_name(names@, funcs, ovs, tid, ds[i]) by {
            assert(os.contains(i as usize));
            let q = choose|q: int| 0 <= q < os.len() && os[q] == i as usize;
            assert(ds[os[q] as int] == ds[i]);
        }
    }
    Ok(names)
}

/// Names every type declaration of the program, recognising tuples by the
/// user-type id of `Tuple`.
pub fn map_types(
    program: &Program,
    func_names: &HashMap<u64, String>,
    type_overrides: &Vec<(Vec<u32>, String)>,
) -> (r: Result<HashMap<u64, String>, MapError>)
    ensures
        ({
            let decls = program.type_declarations@;
            let tuple_id = user_type_id_of("Tuple"@);
            match r {
                Ok(names) => unique_ids(decls) && type_args_ok(decls) && acyclic(decls)
                    && names_types(decls, func_names@, type_overrides@, tuple_id, names@),
                Err(MapError::DuplicateTypeId) => !unique_ids(decls),
                Err(MapError::InvalidArgument) => unique_ids(decls) && !type_args_ok(decls),
                Err(MapError::Cycle) => unique_ids(decls) && type_args_ok(decls) && !acyclic(decls),
            }
        }),
{
    let tuple_id = user_type_id("Tuple");
    name_types(&program.type_declarations, func_names, type_overrides, &tuple_id)
}

/// A type declaration that does not start with a user type is named by its
/// generic type alone when it has no arguments, and by its generic type with
/// its fragments joined by `", "` in angle brackets when there are two
/// fragments or more, or one that is not empty.
pub proof fn lemma_plain_type_name(
    types: Map<u64, String>,
    funcs: Map<u64, String>,
    overrides: Seq<(Vec<u32>, String)>,
    tuple_id: Seq<u32>,
    d: TypeDeclaration,
)
    requires
        !(d.generic_args@.len() > 0 && d.generic_args@[0] is UserType),
    ensures
        d.generic_args@.len() == 0 ==> declared_type_name(types, funcs, overrides, tuple_id, d)
            == d.generic_id@,
        ({
            let frags = fragments(types, funcs, d.generic_args@);
            frags.len() >= 2 || (frags.len() == 1 && frags[0].len() > 0)
        }) ==> declared_type_name(types, funcs, overrides, tuple_id, d) == d.generic_id@ + "<"@
            + crate::utils::join(fragments(types, funcs, d.generic_args@)) + ">"@,
{
    let frags = fragments(types, funcs, d.generic_args@);
    if frags.len() >= 2 {
        assert(crate::utils::separator().len() == 2);
    }
}

/// Over an acyclic graph of types, the names of the types are determined:
/// two tables that both name the declarations hold the same text for each id.
pub proof fn lemma_type_names_determined(
    decls: Seq<TypeDeclaration>,
    f1: Map<u64, String>,
    f2: Map<u64, String>,
    overrides: Seq<(Vec<u32>, String)>,
    tuple_id: Seq<u32>,
    m1: Map<u64, String>,
    m2: Map<u64, String>,
)
    requires
        decls.len() <= usize::MAX,
        acyclic(decls),
        same_names(f1, f2),
        names_types(decls, f1, overrides, tuple_id, m1),
        names_types(decls, f2, overrides, tuple_id, m2),
    ensures
        same_names(m1, m2),
{
    let o = choose|o: Seq<usize>| is_type_order(decls, o);
    lemma_names_agree_upto(decls, f1, f2, overrides, tuple_id, m1, m2, o, o.len() as int);
    assert forall|k: u64| #[trigger] m1.contains_key(k) == m2.contains_key(k) && (m1.contains_key(k)
        ==> m1[k]@ == m2[k]@) by {
        if m1.contains_key(k) {
            let j = choose|j: int| 0 <= j < decls.len() && decls[j].id == k;
            assert(o.contains(j as usize));
            let q = choose|q: int| 0 <= q < o.len() && o[q] == j as usize;
            assert(decls[o[q] as int].id == k);
        }
    }
}

/// The two tables agree on the first `p` declarations of a type order.
proof fn lemma_names_agree_upto(
    decls: Seq<TypeDeclaration>,
    f1: Map<u64, String>,
    f2: Map<u64, String>,
    overrides: Seq<(Vec<u32>, String)>,
    tuple_id: Seq<u32>,
    m1: Map<u64, String>,
    m2: Map<u64, String>,
    o: Seq<usize>,
    p: int,
)
    requires
        is_type_order(decls, o),
        0 <= p <= o.len(),
        same_names(f1, f2),
        names_types(decls, f1, overrides, tuple_id, m1),
        names_types(decls, f2, overrides, tuple_id, m2),
    ensures
        forall|q: int| 0 <= q < p ==> m1[#[trigger] decls[o[q] as int].id]@ == m2[decls[o[q] as int].id]@,
    decreases p,
{
    if p > 0 {
        lemma_names_agree_upto(decls, f1, f2, overrides, tuple_id, m1, m2, o, p - 1);
        let d = decls[o[p - 1] as int];
        let args = d.generic_args@;
        assert forall|a: int|
            0 <= a < args.len() && #[trigger] args[a] is Type implies m1.contains_key(args[a]->Type_0)
                && m2.contains_key(args[a]->Type_0) && m1[args[a]->Type_0]@ == m2[args[a]->Type_0]@ by {
            assert(decls[o[p - 1] as int].generic_args@[a] is Type);
            let q = choose|q: int|
                0 <= q < p - 1 && decls[o[q] as int].id == decls[o[p - 1] as int].generic_args@[a]->Type_0;
            assert(declares(decls, args[a]->Type_0));
        }
        lemma_fragments_stable(m1, m2, f1, f2, args);
    }
}

} // verus!
