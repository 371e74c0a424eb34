//! Names of the libfunc declarations.
use vstd::prelude::*;
use std::collections::HashMap;
use crate::program::{LibfuncDeclaration, Program};
use crate::types::with_args;
use crate::utils::{format_generic_args, formatted, renderable};

verus! {

broadcast use vstd::std_specs::hash::group_hash_axioms;

/// The name of a libfunc declaration: its generic libfunc, with its rendered
/// arguments in angle brackets where they render to anything.
pub open spec fn libfunc_name(
    types: Map<u64, String>,
    funcs: Map<u64, String>,
    d: LibfuncDeclaration,
) -> Seq<char> {
    with_args(d.generic_id@, formatted(types, funcs, d.generic_args@))
}

/// No later declaration of the list has the id of the one at `i`.
pub open spec fn last_with_id(decls: Seq<LibfuncDeclaration>, i: int) -> bool {
    forall|j: int| i < j < decls.len() ==> decls[j].id != decls[i].id
}

/// `names` holds exactly the ids of the declarations, each with the name of
/// the last declaration that has it.
pub open spec fn names_libfuncs(
    decls: Seq<LibfuncDeclaration>,
    types: Map<u64, String>,
    funcs: Map<u64, String>,
    names: Map<u64, String>,
) -> bool {
    &&& forall|t: u64|
        #[trigger] names.contains_key(t) <==> exists|i: int| 0 <= i < decls.len() && decls[i].id == t
    &&& forall|i: int|
        0 <= i < decls.len() && last_with_id(decls, i) ==> names[#[trigger] decls[i].id]@
            == libfunc_name(types, funcs, decls[i])
}

/// Every libfunc declaration's arguments can be rendered over `types`.
pub open spec fn libfuncs_renderable(decls: Seq<LibfuncDeclaration>, types: Map<u64, String>) -> bool {
    forall|i: int| 0 <= i < decls.len() ==> renderable(types, #[trigger] decls[i].generic_args@)
}

/// Names every libfunc declaration of the program.
pub fn map_libfuncs(
    program: &Program,
    func_names: &HashMap<u64, String>,
    type_names: &HashMap<u64, String>,
) -> (r: HashMap<u64, String>)
    requires
        libfuncs_renderable(program.libfunc_declarations@, type_names@),
    ensures
        names_libfuncs(program.libfunc_declarations@, type_names@, func_names@, r@),
{
    let decls = &program.libfunc_declarations;
    let ghost ds = decls@;
    let mut names: HashMap<u64, String> = HashMap::new();
    let mut i: usize = 0;
    while i < decls.len()
        invariant
            ds == decls@,
            ds == program.libfunc_declarations@,
            libfuncs_renderable(ds, type_names@),
            i <= ds.len(),
            forall|t: u64|
                #[trigger] names@.contains_key(t) <==> exists|k: int| 0 <= k < i && ds[k].id == t,
            forall|k: int|
                0 <= k < i && (forall|j: int| k < j < i ==> ds[j].id != ds[k].id)
                    ==> names@[#[trigger] ds[k].id]@ == libfunc_name(type_names@, func_names@, ds[k]),
        decreases ds.len() - i,
    {
        let d = &decls[i];
        proof {
            assert(renderable(type_names@, ds[i as int].generic_args@));
        }
        let rendered = format_generic_args(type_names, func_names, &d.generic_args);
        let mut name = d.generic_id.clone();
        if !rendered.as_str().is_empty() {
            name.append("<");
            name.append(rendered.as_str());
            name.append(">");
        }
        names.insert(d.id, name);
        proof {
            assert forall|t: u64|
                #[trigger] names@.contains_key(t) <==> exists|k: int| 0 <= k < i + 1 && ds[k].id == t by {
                if t == d.id {
                    assert(ds[i as int].id == t);
                }
            }
        }
        i = i + 1;
    }
    names
}

} // verus!
