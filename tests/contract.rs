use sierra_mapper::mapper;
use sierra_mapper::mapper::merge_function_mappings;
use sierra_mapper::program::Program;
use sierra_mapper::utils::{extract_contract_abi, AbiError, AbiItem, ContractClass, EntryPoint};
use sierra_mapper::mappings::{parse_custom_mapping, parse_type_mapping, parse_u64, MappingError};

fn selector(name: &str) -> Vec<u32> {
    cairo_lang_starknet_classes::keccak::starknet_keccak(name.as_bytes()).to_u32_digits()
}

#[test]
fn abi_function_is_named_through_its_selector() {
    let contract = ContractClass {
        abi: Some(vec![AbiItem::Function("transfer".to_string())]),
        external: vec![
            EntryPoint { selector: selector("approve"), function_idx: 3 },
            EntryPoint { selector: selector("transfer"), function_idx: 7 },
        ],
    };
    let abi = extract_contract_abi(&contract).unwrap();
    assert_eq!(abi, vec![(7, "transfer".to_string())]);
    let merged = merge_function_mappings(abi, vec![]);
    let mut p = Program {
        type_declarations: vec![],
        libfunc_declarations: vec![],
        funcs: (0..10).collect(),
        debug_info: None,
    };
    mapper::map(&mut p, &vec![], &merged).unwrap();
    assert_eq!(p.debug_info.unwrap().user_func_names[&7], "transfer");
}

#[test]
fn abi_events_are_passed_over() {
    let contract = ContractClass {
        abi: Some(vec![AbiItem::Event, AbiItem::Function("get".to_string()), AbiItem::Event]),
        external: vec![EntryPoint { selector: selector("get"), function_idx: 2 }],
    };
    assert_eq!(extract_contract_abi(&contract).unwrap(), vec![(2, "get".to_string())]);
}

#[test]
fn contract_without_abi_gives_no_names() {
    let contract = ContractClass { abi: None, external: vec![] };
    assert_eq!(extract_contract_abi(&contract).unwrap(), vec![]);
}

#[test]
fn abi_function_without_entry_point_is_an_error() {
    let contract = ContractClass {
        abi: Some(vec![AbiItem::Function("missing".to_string())]),
        external: vec![EntryPoint { selector: selector("other"), function_idx: 0 }],
    };
    assert_eq!(extract_contract_abi(&contract), Err(AbiError::NoEntryPoint));
}

#[test]
fn unsupported_abi_items_are_an_error() {
    for item in [AbiItem::Constructor, AbiItem::L1Handler, AbiItem::Struct, AbiItem::Enum, AbiItem::Interface, AbiItem::Impl] {
        let contract = ContractClass { abi: Some(vec![AbiItem::Event, item]), external: vec![] };
        assert_eq!(extract_contract_abi(&contract), Err(AbiError::Unsupported));
    }
}

#[test]
fn parses_function_mappings() {
    assert_eq!(parse_custom_mapping("3=foo"), Ok((3, "foo".to_string())));
    assert_eq!(parse_custom_mapping("+7=a=b"), Ok((7, "a=b".to_string())));
    assert_eq!(parse_custom_mapping("12="), Ok((12, String::new())));
    assert_eq!(parse_custom_mapping("foo"), Err(MappingError::MissingSeparator));
    assert_eq!(parse_custom_mapping("x=foo"), Err(MappingError::InvalidKey));
    assert_eq!(parse_custom_mapping("=foo"), Err(MappingError::InvalidKey));
    assert_eq!(parse_custom_mapping("-1=foo"), Err(MappingError::InvalidKey));
}

#[test]
fn parses_u64_bounds() {
    assert_eq!(parse_u64("18446744073709551615"), Some(u64::MAX));
    assert_eq!(parse_u64("18446744073709551616"), None);
    assert_eq!(parse_u64("+"), None);
    assert_eq!(parse_u64("0042"), Some(42));
    assert_eq!(parse_u64("4 2"), None);
}

#[test]
fn parses_type_mappings() {
    assert_eq!(parse_type_mapping("4294967296=Point"), Ok((vec![0, 1], "Point".to_string())));
    assert_eq!(parse_type_mapping("5=x"), Ok((vec![5], "x".to_string())));
    assert_eq!(parse_type_mapping("Point"), Err(MappingError::MissingSeparator));
    assert_eq!(parse_type_mapping("p=Point"), Err(MappingError::InvalidKey));
}
