use sierra_mapper::mapper;
use sierra_mapper::mapper::{merge_function_mappings, resolve_function_names};
use sierra_mapper::program::{
    GenericArg, IntValue, LibfuncDeclaration, MapError, Program, TypeDeclaration, UserTypeId,
};
use sierra_mapper::types::{map_types, name_types, type_order};
use sierra_mapper::libfuncs::map_libfuncs;
use sierra_mapper::utils::{decimal_digits, format_generic_args};
use std::collections::HashMap;

fn tuple_id() -> Vec<u32> {
    cairo_lang_sierra::ids::UserTypeId::from_string("Tuple").id.to_u32_digits()
}

fn ty(id: u64, generic_id: &str, generic_args: Vec<GenericArg>) -> TypeDeclaration {
    TypeDeclaration { id, generic_id: generic_id.to_string(), generic_args }
}

fn libfunc(id: u64, generic_id: &str, generic_args: Vec<GenericArg>) -> LibfuncDeclaration {
    LibfuncDeclaration { id, generic_id: generic_id.to_string(), generic_args }
}

fn user_type(id: Vec<u32>, debug_name: Option<&str>) -> GenericArg {
    GenericArg::UserType(UserTypeId { id, debug_name: debug_name.map(|s| s.to_string()) })
}

fn program(types: Vec<TypeDeclaration>, libfuncs: Vec<LibfuncDeclaration>, funcs: Vec<u64>) -> Program {
    Program { type_declarations: types, libfunc_declarations: libfuncs, funcs, debug_info: None }
}

fn names(entries: &[(u64, &str)]) -> HashMap<u64, String> {
    entries.iter().map(|(k, v)| (*k, v.to_string())).collect()
}

#[test]
fn formats_arguments_in_order() {
    let types = names(&[(1, "felt252"), (2, "u8")]);
    let funcs = names(&[(4, "main")]);
    let args = vec![
        GenericArg::Type(1),
        GenericArg::Value(IntValue { negative: true, magnitude: vec![5] }),
        user_type(vec![9], Some("Ignored")),
        GenericArg::UserFunc(4),
        GenericArg::UserFunc(5),
        GenericArg::Type(2),
    ];
    assert_eq!(format_generic_args(&types, &funcs, &args), "felt252, -5, main, u8");
}

#[test]
fn formats_nothing_for_no_fragments() {
    let types = HashMap::new();
    let funcs = HashMap::new();
    let args = vec![user_type(vec![1], None), GenericArg::UserFunc(3)];
    assert_eq!(format_generic_args(&types, &funcs, &args), "");
}

#[test]
fn formats_large_integers_in_decimal() {
    let types = HashMap::new();
    let funcs = HashMap::new();
    let args = vec![
        GenericArg::Value(IntValue { negative: false, magnitude: vec![0, 1] }),
        GenericArg::Value(IntValue { negative: false, magnitude: vec![] }),
    ];
    assert_eq!(format_generic_args(&types, &funcs, &args), "4294967296, 0");
    assert_eq!(decimal_digits(&vec![7, 1]), "4294967303");
}

#[test]
fn plain_types_get_brackets_only_with_arguments() {
    let decls = vec![
        ty(1, "felt252", vec![]),
        ty(2, "Array", vec![GenericArg::Type(1)]),
        ty(3, "BoundedInt", vec![
            GenericArg::Value(IntValue { negative: false, magnitude: vec![0] }),
            GenericArg::Value(IntValue { negative: false, magnitude: vec![10] }),
        ]),
    ];
    let r = name_types(&decls, &HashMap::new(), &vec![], &tuple_id()).unwrap();
    assert_eq!(r, names(&[(1, "felt252"), (2, "Array<felt252>"), (3, "BoundedInt<0, 10>")]));
}

#[test]
fn tuple_without_members_is_unit() {
    let p = program(vec![ty(1, "Struct", vec![user_type(tuple_id(), Some("Tuple"))])], vec![], vec![]);
    let r = map_types(&p, &HashMap::new(), &vec![]).unwrap();
    assert_eq!(r[&1], "Unit");
}

#[test]
fn tuple_of_two_felts() {
    let p = program(
        vec![
            ty(3, "Struct", vec![user_type(tuple_id(), None), GenericArg::Type(1), GenericArg::Type(2)]),
            ty(1, "felt252", vec![]),
            ty(2, "felt252", vec![]),
        ],
        vec![],
        vec![],
    );
    let r = map_types(&p, &HashMap::new(), &vec![]).unwrap();
    assert_eq!(r[&3], "Tuple<felt252, felt252>");
}

#[test]
fn user_types_use_override_then_label_then_id() {
    let decls = vec![
        ty(1, "Struct", vec![user_type(vec![42], Some("Point")), GenericArg::Type(3)]),
        ty(2, "Enum", vec![user_type(vec![0, 1], None)]),
        ty(3, "felt252", vec![]),
        ty(4, "Struct", vec![user_type(vec![7], Some("Label"))]),
    ];
    let overrides = vec![(vec![7], "First".to_string()), (vec![7], "Second".to_string())];
    let r = name_types(&decls, &HashMap::new(), &overrides, &tuple_id()).unwrap();
    assert_eq!(r[&1], "Point");
    assert_eq!(r[&2], "ut@4294967296");
    assert_eq!(r[&4], "Second");
}

#[test]
fn struct_with_other_user_type_is_not_a_tuple() {
    let decls = vec![ty(1, "Struct", vec![user_type(vec![5], None)])];
    let r = name_types(&decls, &HashMap::new(), &vec![], &vec![6]).unwrap();
    assert_eq!(r[&1], "ut@5");
    let r = name_types(&decls, &HashMap::new(), &vec![], &vec![5]).unwrap();
    assert_eq!(r[&1], "Unit");
}

#[test]
fn function_arguments_use_function_names() {
    let decls = vec![ty(1, "Closure", vec![GenericArg::UserFunc(3), GenericArg::UserFunc(4)])];
    let r = name_types(&decls, &names(&[(3, "run")]), &vec![], &tuple_id()).unwrap();
    assert_eq!(r[&1], "Closure<run>");
}

#[test]
fn dependencies_come_first_in_the_order() {
    let decls = vec![
        ty(10, "Box", vec![GenericArg::Type(11)]),
        ty(11, "Array", vec![GenericArg::Type(12)]),
        ty(12, "felt252", vec![]),
    ];
    let o = type_order(&decls).unwrap();
    let pos = |i: usize| o.iter().position(|&x| x == i).unwrap();
    assert_eq!(o.len(), 3);
    assert!(pos(2) < pos(1));
    assert!(pos(1) < pos(0));
}

#[test]
fn cycle_is_an_error() {
    let decls = vec![ty(1, "A", vec![GenericArg::Type(2)]), ty(2, "B", vec![GenericArg::Type(1)])];
    assert_eq!(type_order(&decls), Err(MapError::Cycle));
    let decls = vec![ty(1, "A", vec![GenericArg::Type(1)])];
    assert_eq!(type_order(&decls), Err(MapError::Cycle));
}

#[test]
fn duplicate_type_id_is_an_error() {
    let decls = vec![ty(1, "A", vec![]), ty(1, "B", vec![])];
    assert_eq!(type_order(&decls), Err(MapError::DuplicateTypeId));
}

#[test]
fn bad_arguments_are_an_error() {
    let decls = vec![ty(1, "A", vec![GenericArg::Type(2)])];
    assert_eq!(type_order(&decls), Err(MapError::InvalidArgument));
    let decls = vec![ty(1, "A", vec![GenericArg::Libfunc(0)])];
    assert_eq!(type_order(&decls), Err(MapError::InvalidArgument));
}

#[test]
fn store_temp_of_felt() {
    let p = program(vec![ty(1, "felt252", vec![])], vec![libfunc(0, "store_temp", vec![GenericArg::Type(1)])], vec![]);
    let r = map_libfuncs(&p, &HashMap::new(), &names(&[(1, "felt252")]));
    assert_eq!(r[&0], "store_temp<felt252>");
}

#[test]
fn libfunc_without_fragments_has_no_brackets() {
    let p = program(vec![], vec![
        libfunc(0, "function_call", vec![GenericArg::UserFunc(8)]),
        libfunc(1, "felt252_const", vec![GenericArg::Value(IntValue { negative: false, magnitude: vec![3] })]),
    ], vec![]);
    let r = map_libfuncs(&p, &names(&[]), &names(&[]));
    assert_eq!(r[&0], "function_call");
    assert_eq!(r[&1], "felt252_const<3>");
}

#[test]
fn map_annotates_the_program() {
    let mut p = program(
        vec![ty(1, "felt252", vec![])],
        vec![libfunc(0, "store_temp", vec![GenericArg::Type(1)])],
        vec![0, 1, 2],
    );
    let unknown = mapper::map(&mut p, &vec![], &vec![(1, "main".to_string())]).unwrap();
    assert!(unknown.is_empty());
    let info = p.debug_info.unwrap();
    assert_eq!(info.type_names, names(&[(1, "felt252")]));
    assert_eq!(info.libfunc_names, names(&[(0, "store_temp<felt252>")]));
    assert_eq!(info.user_func_names, names(&[(1, "main")]));
}

#[test]
fn map_reports_cycles() {
    let mut p = program(vec![ty(1, "A", vec![GenericArg::Type(1)])], vec![], vec![]);
    assert_eq!(mapper::map(&mut p, &vec![], &vec![]), Err(MapError::Cycle));
}

#[test]
fn map_refuses_libfunc_naming_an_unknown_type() {
    let mut p = program(vec![], vec![libfunc(0, "store_temp", vec![GenericArg::Type(4)])], vec![]);
    assert_eq!(mapper::map(&mut p, &vec![], &vec![]), Err(MapError::InvalidArgument));
}

#[test]
fn explicit_mapping_wins_over_abi() {
    let merged = merge_function_mappings(vec![(3, "from_abi".to_string())], vec![(3, "explicit".to_string())]);
    let (table, unknown) = resolve_function_names(&vec![0, 1, 2, 3], &merged);
    assert_eq!(table, names(&[(3, "explicit")]));
    assert!(unknown.is_empty());
}

#[test]
fn unknown_function_mapping_is_dropped() {
    let funcs: Vec<u64> = (0..=10).collect();
    let mut p = program(vec![], vec![], funcs);
    let mappings = vec![(9999, "ghost".to_string()), (2, "two".to_string()), (5, "five".to_string())];
    let unknown = mapper::map(&mut p, &vec![], &mappings).unwrap();
    assert_eq!(unknown, vec![9999]);
    assert_eq!(p.debug_info.unwrap().user_func_names, names(&[(2, "two"), (5, "five")]));
}

#[test]
fn naming_is_deterministic() {
    let build = || {
        program(
            vec![
                ty(5, "Struct", vec![user_type(tuple_id(), None), GenericArg::Type(6), GenericArg::Type(7)]),
                ty(6, "felt252", vec![]),
                ty(7, "Array", vec![GenericArg::Type(6)]),
                ty(8, "Enum", vec![user_type(vec![3, 4], None)]),
            ],
            vec![libfunc(1, "store_temp", vec![GenericArg::Type(5)]), libfunc(2, "drop", vec![GenericArg::Type(8)])],
            vec![0, 1],
        )
    };
    let mappings = vec![(1, "f".to_string()), (0, "g".to_string())];
    let mut a = build();
    let mut b = build();
    mapper::map(&mut a, &vec![], &mappings).unwrap();
    mapper::map(&mut b, &vec![], &mappings).unwrap();
    let (a, b) = (a.debug_info.unwrap(), b.debug_info.unwrap());
    assert_eq!(a.type_names, b.type_names);
    assert_eq!(a.libfunc_names, b.libfunc_names);
    assert_eq!(a.user_func_names, b.user_func_names);
    assert_eq!(a.libfunc_names[&1], "store_temp<Tuple<felt252, Array<felt252>>>");
}

#[test]
fn empty_program_gets_empty_tables() {
    let mut p = program(vec![], vec![], vec![]);
    let unknown = mapper::map(&mut p, &vec![], &vec![]).unwrap();
    assert!(unknown.is_empty());
    let info = p.debug_info.unwrap();
    assert!(info.type_names.is_empty());
    assert!(info.libfunc_names.is_empty());
    assert!(info.user_func_names.is_empty());
}

#[test]
fn later_libfunc_with_same_id_wins() {
    let p = program(vec![], vec![libfunc(0, "first", vec![]), libfunc(0, "second", vec![])], vec![]);
    let r = map_libfuncs(&p, &names(&[]), &names(&[]));
    assert_eq!(r, names(&[(0, "second")]));
}

#[test]
fn later_function_mapping_wins() {
    let (table, unknown) = resolve_function_names(&vec![1], &vec![(1, "a".to_string()), (1, "b".to_string()), (2, "c".to_string())]);
    assert_eq!(table, names(&[(1, "b")]));
    assert_eq!(unknown, vec![2]);
}
