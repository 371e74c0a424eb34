//! Resolution of user-function names, and the annotation of a whole program.
use vstd::prelude::*;
use std::collections::HashMap;
use crate::libfuncs::{last_with_id, libfuncs_renderable, map_libfuncs, names_libfuncs};
use crate::program::{DebugInfo, GenericArg, LibfuncDeclaration, MapError, Program, TypeDeclaration};
use crate::types::{
    acyclic, declares, lemma_fragments_stable, lemma_type_names_determined, map_types, names_types,
    same_names, type_args_ok, unique_ids, user_type_id_of,
};

verus! {

broadcast use vstd::std_specs::hash::group_hash_axioms;

/// The name a list of mappings gives to function `id`: the last entry for it.
pub open spec fn function_mapping(mappings: Seq<(u64, String)>, id: u64) -> Option<Seq<char>>
    decreases mappings.len(),
{
    if mappings.len() == 0 {
        None
    } else if mappings.last().0 == id {
        Some(mappings.last().1@)
    } else {
        function_mapping(mappings.drop_last(), id)
    }
}

/// The ids of the mappings that name no function of the program, in order.
pub open spec fn unknown_ids(funcs: Seq<u64>, mappings: Seq<(u64, String)>) -> Seq<u64>
    decreases mappings.len(),
{
    if mappings.len() == 0 {
        seq![]
    } else {
        let pre = unknown_ids(funcs, mappings.drop_last());
        if funcs.contains(mappings.last().0) {
            pre
        } else {
            pre.push(mappings.last().0)
        }
    }
}

/// `names` holds a function of the program exactly where a mapping names it,
/// with the name of its last mapping.
pub open spec fn names_functions(
    funcs: Seq<u64>,
    mappings: Seq<(u64, String)>,
    names: Map<u64, String>,
) -> bool {
    forall|id: u64|
        #[trigger] names.contains_key(id) == (funcs.contains(id) && function_mapping(mappings, id) is Some)
            && (names.contains_key(id) ==> function_mapping(mappings, id) == Some(names[id]@))
}

/// Whether the program declares a function with id `id`.
fn has_function(funcs: &Vec<u64>, id: u64) -> (r: bool)
    ensures
        r == funcs@.contains(id),
{
    let mut i: usize = 0;
    while i < funcs.len()
        invariant
            i <= funcs@.len(),
            forall|k: int| 0 <= k < i ==> funcs@[k] != id,
        decreases funcs@.len() - i,
    {
        if funcs[i] == id {
            assert(funcs@[i as int] == id);
            return true;
        }
        i = i + 1;
    }
    false
}

/// The table of user-function names from an ordered list of mappings, in
/// which a later entry takes precedence; mappings for functions that the
/// program does not declare are left out, and their ids returned.
pub fn resolve_function_names(funcs: &Vec<u64>, mappings: &Vec<(u64, String)>) -> (r: (
    HashMap<u64, String>,
    Vec<u64>,
))
    ensures
        names_functions(funcs@, mappings@, r.0@),
        r.1@ == unknown_ids(funcs@, mappings@),
{
    let ghost ms = mappings@;
    let mut names: HashMap<u64, String> = HashMap::new();
    let mut unknown: Vec<u64> = Vec::new();
    let mut i: usize = 0;
    while i < mappings.len()
        invariant
            ms == mappings@,
            i <= ms.len(),
            names_functions(funcs@, ms.subrange(0, i as int), names@),
            unknown@ == unknown_ids(funcs@, ms.subrange(0, i as int)),
        decreases ms.len() - i,
    {
        let ghost pre = ms.subrange(0, i as int);
        let ghost next = ms.subrange(0, i + 1);
        assert(next.drop_last() =~= pre);
        assert(next.last() == ms[i as int]);
        let id = mappings[i].0;
        if has_function(funcs, id) {
            names.insert(id, mappings[i].1.clone());
        } else {
            unknown.push(id);
        }
        i = i + 1;
    }
    assert(ms.subrange(0, ms.len() as int) =~= ms);
    (names, unknown)
}

/// ABI-derived mappings followed by explicit ones, so that an explicit
/// mapping takes precedence for the same function.
pub fn merge_function_mappings(abi: Vec<(u64, String)>, explicit: Vec<(u64, String)>) -> (r: Vec<(u64, String)>)
    ensures
        r@ == abi@ + explicit@,
{
    let mut r = abi;
    let mut rest = explicit;
    r.append(&mut rest);
    r
}

/// Every argument of every libfunc declaration is admissible: not a libfunc,
/// and naming only declared types.
pub open spec fn libfunc_args_ok(types: Seq<TypeDeclaration>, decls: Seq<LibfuncDeclaration>) -> bool {
    forall|i: int, a: int|
        #![trigger decls[i].generic_args@[a]]
        0 <= i < decls.len() && 0 <= a < decls[i].generic_args@.len() ==> match decls[i].generic_args@[a] {
            GenericArg::Type(t) => declares(types, t),
            GenericArg::Libfunc(_) => false,
            _ => true,
        }
}

/// Whether every argument of every libfunc declaration is admissible.
fn check_libfunc_args(types: &Vec<TypeDeclaration>, decls: &Vec<LibfuncDeclaration>) -> (r: bool)
    ensures
        r == libfunc_args_ok(types@, decls@),
{
    let mut i: usize = 0;
    while i < decls.len()
        invariant
            i <= decls@.len(),
            forall|x: int, a: int|
                #![trigger decls@[x].generic_args@[a]]
                0 <= x < i && 0 <= a < decls@[x].generic_args@.len() ==> match decls@[x].generic_args@[a] {
                    GenericArg::Type(t) => declares(types@, t),
                    GenericArg::Libfunc(_) => false,
                    _ => true,
                },
        decreases decls@.len() - i,
    {
        let args = &decls[i].generic_args;
        let mut a: usize = 0;
        while a < args.len()
            invariant
                i < decls@.len(),
                args@ == decls@[i as int].generic_args@,
                a <= args@.len(),
                forall|x: int, b: int|
                    #![trigger decls@[x].generic_args@[b]]
                    0 <= x < i && 0 <= b < decls@[x].generic_args@.len() ==> match decls@[x].generic_args@[b] {
                        GenericArg::Type(t) => declares(types@, t),
                        GenericArg::Libfunc(_) => false,
                        _ => true,
                    },
                forall|b: int|
                    #![trigger decls@[i as int].generic_args@[b]]
                    0 <= b < a ==> match decls@[i as int].generic_args@[b] {
                        GenericArg::Type(t) => declares(types@, t),
                        GenericArg::Libfunc(_) => false,
                        _ => true,
                    },
            decreases args@.len() - a,
        {
            match &args[a] {
                GenericArg::Type(t) => {
                    let mut j: usize = 0;
                    let mut found = false;
                    while j < types.len()
                        invariant
                            j <= types@.len(),
                            found ==> declares(types@, *t),
                            !found ==> forall|k: int| 0 <= k < j ==> types@[k].id != *t,
                        decreases types@.len() - j,
                    {
                        if types[j].id == *t {
                            found = true;
                        }
                        j = j + 1;
                    }
                    if !found {
                        assert(decls@[i as int].generic_args@[a as int] == GenericArg::Type(*t));
                        return false;
                    }
                },
                GenericArg::Libfunc(_) => {
                    return false;
                },
                _ => {},
            }
            a = a + 1;
        }
        i = i + 1;
    }
    true
}

/// The program is fit for naming: unique type ids, admissible arguments, and
/// no cycle among the types.
pub open spec fn well_formed(p: Program) -> bool {
    &&& unique_ids(p.type_declarations@)
    &&& type_args_ok(p.type_declarations@)
    &&& acyclic(p.type_declarations@)
    &&& libfunc_args_ok(p.type_declarations@, p.libfunc_declarations@)
}

/// `info` annotates the program: its function names come from the mappings,
/// its type names from the type mappings and the program's declarations, and
/// its libfunc names from those.
pub open spec fn annotates(
    p: Program,
    type_mappings: Seq<(Vec<u32>, String)>,
    function_mappings: Seq<(u64, String)>,
    info: DebugInfo,
) -> bool {
    &&& names_functions(p.funcs@, function_mappings, info.user_func_names@)
    &&& names_types(
        p.type_declarations@,
        info.user_func_names@,
        type_mappings,
        user_type_id_of("Tuple"@),
        info.type_names@,
    )
    &&& names_libfuncs(
        p.libfunc_declarations@,
        info.type_names@,
        info.user_func_names@,
        info.libfunc_names@,
    )
}

/// Names the declarations of the program and writes the three tables into its
/// debug info. Function names come from `function_mappings`, where a later
/// entry takes precedence; the ids of mappings for functions the program does
/// not declare are returned, and those mappings are left out.
pub fn map(
    program: &mut Program,
    type_mappings: &Vec<(Vec<u32>, String)>,
    function_mappings: &Vec<(u64, String)>,
) -> (r: Result<Vec<u64>, MapError>)
    ensures
        final(program).type_declarations == old(program).type_declarations,
        final(program).libfunc_declarations == old(program).libfunc_declarations,
        final(program).funcs == old(program).funcs,
        r is Ok <==> well_formed(*old(program)),
        match r {
            Ok(unknown) => {
                &&& unknown@ == unknown_ids(old(program).funcs@, function_mappings@)
                &&& final(program).debug_info matches Some(info) && annotates(
                    *old(program),
                    type_mappings@,
                    function_mappings@,
                    info,
                )
            },
            Err(MapError::DuplicateTypeId) => !unique_ids(old(program).type_declarations@),
            Err(MapError::InvalidArgument) => unique_ids(old(program).type_declarations@) && !(
            type_args_ok(old(program).type_declarations@) && libfunc_args_ok(
                old(program).type_declarations@,
                old(program).libfunc_declarations@,
            )),
            Err(MapError::Cycle) => unique_ids(old(program).type_declarations@) && type_args_ok(
                old(program).type_declarations@,
            ) && !acyclic(old(program).type_declarations@),
        },
{
    let (user_func_names, unknown) = resolve_function_names(&program.funcs, function_mappings);
    let type_names = match map_types(program, &user_func_names, type_mappings) {
        Ok(names) => names,
        Err(e) => {
            return Err(e);
        },
    };
    if !check_libfunc_args(&program.type_declarations, &program.libfunc_declarations) {
        return Err(MapError::InvalidArgument);
    }
    proof {
        let types = program.type_declarations@;
        let decls = program.libfunc_declarations@;
        assert forall|i: int| 0 <= i < decls.len() implies crate::utils::renderable(
            type_names@,
            #[trigger] decls[i].generic_args@,
        ) by {
            assert forall|a: int| 0 <= a < decls[i].generic_args@.len() implies match #[trigger] decls[i].generic_args@[a] {
                GenericArg::Type(id) => type_names@.contains_key(id),
                GenericArg::Libfunc(_) => false,
                _ => true,
            } by {
                assert(match decls[i].generic_args@[a] {
                    GenericArg::Type(t) => declares(types, t),
                    GenericArg::Libfunc(_) => false,
                    _ => true,
                });
            }
        }
        assert(libfuncs_renderable(decls, type_names@));
    }
    let libfunc_names = map_libfuncs(program, &user_func_names, &type_names);
    program.debug_info = Some(DebugInfo { type_names, libfunc_names, user_func_names });
    Ok(unknown)
}

/// A mapping list that ends with `explicit` gives each function that
/// `explicit` names the name `explicit` gives it.
proof fn lemma_later_mappings_win(abi: Seq<(u64, String)>, explicit: Seq<(u64, String)>, id: u64)
    requires
        function_mapping(explicit, id) is Some,
    ensures
        function_mapping(abi + explicit, id) == function_mapping(explicit, id),
    decreases explicit.len(),
{
    let all = abi + explicit;
    assert(all.last() == explicit.last());
    if explicit.last().0 != id {
        assert(all.drop_last() =~= abi + explicit.drop_last());
        lemma_later_mappings_win(abi, explicit.drop_last(), id);
    }
}

/// Where ABI-derived and explicit mappings both name a function of the
/// program, the merged table holds the explicit name.
pub proof fn lemma_explicit_mapping_wins(
    funcs: Seq<u64>,
    abi: Seq<(u64, String)>,
    explicit: Seq<(u64, String)>,
    names: Map<u64, String>,
    id: u64,
)
    requires
        names_functions(funcs, abi + explicit, names),
        funcs.contains(id),
        function_mapping(explicit, id) is Some,
    ensures
        names.contains_key(id),
        Some(names[id]@) == function_mapping(explicit, id),
{
    lemma_later_mappings_win(abi, explicit, id);
    assert(names.contains_key(id) == (funcs.contains(id) && function_mapping(abi + explicit, id) is Some));
}

/// A mapping for a function that the program does not declare leaves no entry
/// in the table and is reported among the unknown ids, while every function
/// of the program that a mapping names gets its name.
pub proof fn lemma_unknown_function_dropped(
    funcs: Seq<u64>,
    mappings: Seq<(u64, String)>,
    names: Map<u64, String>,
    id: u64,
)
    requires
        names_functions(funcs, mappings, names),
        !funcs.contains(id),
        function_mapping(mappings, id) is Some,
    ensures
        !names.contains_key(id),
        unknown_ids(funcs, mappings).contains(id),
        forall|f: u64|
            funcs.contains(f) && function_mapping(mappings, f) is Some ==> #[trigger] names.contains_key(f)
                && function_mapping(mappings, f) == Some(names[f]@),
    decreases mappings.len(),
{
    assert(names.contains_key(id) == (funcs.contains(id) && function_mapping(mappings, id) is Some));
    lemma_unknown_listed(funcs, mappings, id);
    assert forall|f: u64|
        funcs.contains(f) && function_mapping(mappings, f) is Some implies #[trigger] names.contains_key(f)
            && function_mapping(mappings, f) == Some(names[f]@) by {
        assert(names.contains_key(f) == (funcs.contains(f) && function_mapping(mappings, f) is Some));
    }
}

/// A mapping for an undeclared function is listed among the unknown ids.
proof fn lemma_unknown_listed(funcs: Seq<u64>, mappings: Seq<(u64, String)>, id: u64)
    requires
        !funcs.contains(id),
        function_mapping(mappings, id) is Some,
    ensures
        unknown_ids(funcs, mappings).contains(id),
    decreases mappings.len(),
{
    let pre = unknown_ids(funcs, mappings.drop_last());
    if mappings.last().0 == id {
        assert(unknown_ids(funcs, mappings) == pre.push(id));
        assert(unknown_ids(funcs, mappings)[pre.len() as int] == id);
    } else {
        lemma_unknown_listed(funcs, mappings.drop_last(), id);
        let k = choose|k: int| 0 <= k < pre.len() && pre[k] == id;
        if !funcs.contains(mappings.last().0) {
            assert(unknown_ids(funcs, mappings)[k] == id);
        }
    }
}

/// Some declaration with id `k` has no later declaration with the same id.
proof fn lemma_last_with_id_exists(decls: Seq<LibfuncDeclaration>, k: u64, i: int)
    requires
        0 <= i < decls.len(),
        decls[i].id == k,
    ensures
        exists|j: int| 0 <= j < decls.len() && decls[j].id == k && last_with_id(decls, j),
    decreases decls.len(),
{
    let n = decls.len() - 1;
    if decls[n].id == k {
        assert(last_with_id(decls, n));
        assert(0 <= n < decls.len() && decls[n].id == k && last_with_id(decls, n));
    } else {
        let pre = decls.drop_last();
        lemma_last_with_id_exists(pre, k, i);
        let j = choose|j: int| 0 <= j < pre.len() && pre[j].id == k && last_with_id(pre, j);
        assert(decls[j] == pre[j]);
        assert forall|x: int| j < x < decls.len() implies decls[x].id != decls[j].id by {
            if x < n {
                assert(decls[x] == pre[x]);
            }
        }
        assert(0 <= j < decls.len() && decls[j].id == k && last_with_id(decls, j));
    }
}

/// Annotating a program is deterministic: two annotations of the same
/// well-formed program from the same mappings hold the same ids with the same
/// names, in each of the three tables.
pub proof fn lemma_map_deterministic(
    p: Program,
    type_mappings: Seq<(Vec<u32>, String)>,
    function_mappings: Seq<(u64, String)>,
    i1: DebugInfo,
    i2: DebugInfo,
)
    requires
        p.type_declarations@.len() <= usize::MAX,
        well_formed(p),
        annotates(p, type_mappings, function_mappings, i1),
        annotates(p, type_mappings, function_mappings, i2),
    ensures
        same_names(i1.user_func_names@, i2.user_func_names@),
        same_names(i1.type_names@, i2.type_names@),
        same_names(i1.libfunc_names@, i2.libfunc_names@),
{
    let f1 = i1.user_func_names@;
    let f2 = i2.user_func_names@;
    assert forall|k: u64| #[trigger] f1.contains_key(k) == f2.contains_key(k) && (f1.contains_key(k)
        ==> f1[k]@ == f2[k]@) by {
        assert(f1.contains_key(k) == (p.funcs@.contains(k) && function_mapping(function_mappings, k) is Some));
        assert(f2.contains_key(k) == (p.funcs@.contains(k) && function_mapping(function_mappings, k) is Some));
    }
    let types = p.type_declarations@;
    lemma_type_names_determined(
        types,
        f1,
        f2,
        type_mappings,
        user_type_id_of("Tuple"@),
        i1.type_names@,
        i2.type_names@,
    );
    let t1 = i1.type_names@;
    let t2 = i2.type_names@;
    let l1 = i1.libfunc_names@;
    let l2 = i2.libfunc_names@;
    let decls = p.libfunc_declarations@;
    assert forall|k: u64| #[trigger] l1.contains_key(k) == l2.contains_key(k) && (l1.contains_key(k)
        ==> l1[k]@ == l2[k]@) by {
        if l1.contains_key(k) {
            let i = choose|i: int| 0 <= i < decls.len() && decls[i].id == k;
            lemma_last_with_id_exists(decls, k, i);
            let j = choose|j: int| 0 <= j < decls.len() && decls[j].id == k && last_with_id(decls, j);
            let args = decls[j].generic_args@;
            assert forall|a: int|
                0 <= a < args.len() && #[trigger] args[a] is Type implies t1.contains_key(args[a]->Type_0)
                    && t2.contains_key(args[a]->Type_0) && t1[args[a]->Type_0]@ == t2[args[a]->Type_0]@ by {
                assert(match decls[j].generic_args@[a] {
                    GenericArg::Type(t) => declares(types, t),
                    GenericArg::Libfunc(_) => false,
                    _ => true,
                });
                assert(t1.contains_key(args[a]->Type_0));
                assert(t2.contains_key(args[a]->Type_0) == t1.contains_key(args[a]->Type_0));
            }
            lemma_fragments_stable(t1, t2, f1, f2, args);
            assert(l1[decls[j].id]@ == l2[decls[j].id]@);
        } else {
            if l2.contains_key(k) {
                let i = choose|i: int| 0 <= i < decls.len() && decls[i].id == k;
                assert(l1.contains_key(decls[i].id));
            }
        }
    }
}

} // verus!
