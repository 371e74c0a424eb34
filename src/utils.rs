//! Rendering of generic arguments, and names recovered from a contract's ABI.
use vstd::prelude::*;
use vstd::string::*;
use std::collections::HashMap;
use num_bigint::{BigInt, Sign};
use cairo_lang_starknet_classes::keccak::starknet_keccak;
use crate::program::{GenericArg, IntValue};

verus! {

broadcast use vstd::std_specs::hash::group_hash_axioms;

/// The decimal rendering of the integer with the given sign and
/// little-endian base-2^32 magnitude, as num-bigint writes it.
pub uninterp spec fn decimal_of(negative: bool, magnitude: Seq<u32>) -> Seq<char>;

/// Relies on num-bigint's `BigInt::from_slice` and its `Display`: the text
/// is the decimal rendering of the value, a function of sign and digits alone.
#[verifier::external_body]
fn decimal(v: &IntValue) -> (r: String)
    ensures
        r@ == decimal_of(v.negative, v.magnitude@),
{
    let sign = if v.negative { Sign::Minus } else { Sign::Plus };
    BigInt::from_slice(sign, &v.magnitude).to_string()
}

/// The decimal rendering of a non-negative integer given by its digits.
pub fn decimal_digits(magnitude: &Vec<u32>) -> (r: String)
    ensures
        r@ == decimal_of(false, magnitude@),
{
    decimal(&IntValue { negative: false, magnitude: magnitude.clone() })
}

/// The text one generic argument contributes, if any: a type's name, an
/// integer in decimal, or a user function's name where it is known.
pub open spec fn fragment(
    types: Map<u64, String>,
    funcs: Map<u64, String>,
    arg: GenericArg,
) -> Option<Seq<char>> {
    match arg {
        GenericArg::UserType(_) => None,
        GenericArg::Type(id) => Some(types[id]@),
        GenericArg::Value(v) => Some(decimal_of(v.negative, v.magnitude@)),
        GenericArg::UserFunc(id) => if funcs.contains_key(id) {
            Some(funcs[id]@)
        } else {
            None
        },
        GenericArg::Libfunc(_) => None,
    }
}

/// The fragments of a list of generic arguments, in order.
pub open spec fn fragments(
    types: Map<u64, String>,
    funcs: Map<u64, String>,
    args: Seq<GenericArg>,
) -> Seq<Seq<char>>
    decreases args.len(),
{
    if args.len() == 0 {
        seq![]
    } else {
        let pre = fragments(types, funcs, args.drop_last());
        match fragment(types, funcs, args.last()) {
            Some(f) => pre.push(f),
            None => pre,
        }
    }
}

/// The separator placed between two fragments.
pub open spec fn separator() -> Seq<char> {
    seq![',', ' ']
}

/// The fragments joined by the separator.
pub open spec fn join(frags: Seq<Seq<char>>) -> Seq<char>
    decreases frags.len(),
{
    if frags.len() == 0 {
        seq![]
    } else if frags.len() == 1 {
        frags[0]
    } else {
        join(frags.drop_last()) + separator() + frags.last()
    }
}

/// The rendering of a list of generic arguments.
pub open spec fn formatted(
    types: Map<u64, String>,
    funcs: Map<u64, String>,
    args: Seq<GenericArg>,
) -> Seq<char> {
    join(fragments(types, funcs, args))
}

/// Every argument can be rendered: each type it names has a name already, and
/// no libfunc stands among the arguments.
pub open spec fn renderable(types: Map<u64, String>, args: Seq<GenericArg>) -> bool {
    forall|i: int|
        0 <= i < args.len() ==> match #[trigger] args[i] {
            GenericArg::Type(id) => types.contains_key(id),
            GenericArg::Libfunc(_) => false,
            _ => true,
        }
}

/// Renders generic arguments as their fragments joined by `", "`.
pub fn format_generic_args(
    type_names: &HashMap<u64, String>,
    func_names: &HashMap<u64, String>,
    generic_args: &Vec<GenericArg>,
) -> (r: String)
    requires
        renderable(type_names@, generic_args@),
    ensures
        r@ == formatted(type_names@, func_names@, generic_args@),
{
    let ghost types = type_names@;
    let ghost funcs = func_names@;
    let ghost args = generic_args@;
    let mut out = String::new();
    let mut first = true;
    let mut i: usize = 0;
    while i < generic_args.len()
        invariant
            i <= args.len(),
            args == generic_args@,
            types == type_names@,
            funcs == func_names@,
            renderable(types, args),
            out@ == join(fragments(types, funcs, args.subrange(0, i as int))),
            first == (fragments(types, funcs, args.subrange(0, i as int)).len() == 0),
        decreases args.len() - i,
    {
        proof {
            assert(args.subrange(0, i + 1).drop_last() =~= args.subrange(0, i as int));
            assert(args.subrange(0, i + 1).last() == args[i as int]);
            let a = args[i as int];
            assert(match a {
                GenericArg::Type(id) => types.contains_key(id),
                GenericArg::Libfunc(_) => false,
                _ => true,
            });
        }
        let frag: Option<String> = match &generic_args[i] {
            GenericArg::UserType(_) => None,
            GenericArg::Type(id) => {
                let key: u64 = *id;
                Some(type_names.get(&key).unwrap().clone())
            },
            GenericArg::Value(v) => Some(decimal(v)),
            GenericArg::UserFunc(id) => match func_names.get(&id.clone()) {
                Some(name) => Some(name.clone()),
                None => None,
            },
            GenericArg::Libfunc(_) => None,
        };
        let ghost pre = fragments(types, funcs, args.subrange(0, i as int));
        match frag {
            Some(f) => {
                if !first {
                    proof {
                        reveal_strlit(", ");
                    }
                    out.append(", ");
                }
                out.append(f.as_str());
                first = false;
                proof {
                    let next = pre.push(f@);
                    assert(next.drop_last() =~= pre);
                    if pre.len() == 0 {
                        assert(out@ =~= f@);
                    }
                }
            },
            None => {},
        }
        i = i + 1;
    }
    proof {
        assert(args.subrange(0, args.len() as int) =~= args);
    }
    out
}

/// One item of a contract's ABI, by kind; a function carries its name.
#[derive(Debug)]
pub enum AbiItem {
    Function(String),
    Constructor,
    L1Handler,
    Event,
    Struct,
    Enum,
    Interface,
    Impl,
}

/// An external entry point: the selector that routes calls to it, as
/// little-endian base-2^32 digits, and the index of its user function.
#[derive(Debug)]
pub struct EntryPoint {
    pub selector: Vec<u32>,
    pub function_idx: usize,
}

/// The parts of a contract class that naming reads: its ABI, if it has one,
/// and its external entry points.
#[derive(Debug)]
pub struct ContractClass {
    pub abi: Option<Vec<AbiItem>>,
    pub external: Vec<EntryPoint>,
}

/// Why names could not be recovered from an ABI.
#[derive(Debug, Clone, Copy, PartialEq, Eq)]
pub enum AbiError {
    /// No external entry point has the selector of an ABI function.
    NoEntryPoint,
    /// The ABI holds an item of a kind that naming does not handle.
    Unsupported,
}

/// The selector of a function with the given name: Starknet's Keccak of its
/// UTF-8 bytes, as little-endian base-2^32 digits.
pub uninterp spec fn selector_of(name: Seq<char>) -> Seq<u32>;

/// Relies on cairo-lang-starknet-classes' `starknet_keccak`, a hash of the
/// name's bytes, and on num-bigint's `to_u32_digits` for its digits.
#[verifier::external_body]
fn selector(name: &String) -> (r: Vec<u32>)
    ensures
        r@ == selector_of(name@),
{
    starknet_keccak(name.as_bytes()).to_u32_digits()
}

/// The function index of the first entry point with selector `sel`.
pub open spec fn entry_for(entries: Seq<EntryPoint>, sel: Seq<u32>) -> Option<usize>
    decreases entries.len(),
{
    if entries.len() == 0 {
        None
    } else if entries[0].selector@ == sel {
        Some(entries[0].function_idx)
    } else {
        entry_for(entries.drop_first(), sel)
    }
}

/// The mappings that the ABI items give, in order, or the error of the first
/// item that gives none: a function maps the index of its entry point to its
/// name, an event is passed over.
pub open spec fn abi_mappings(items: Seq<AbiItem>, entries: Seq<EntryPoint>) -> Result<
    Seq<(u64, Seq<char>)>,
    AbiError,
>
    decreases items.len(),
{
    if items.len() == 0 {
        Ok(seq![])
    } else {
        match abi_mappings(items.drop_last(), entries) {
            Err(e) => Err(e),
            Ok(pre) => match items.last() {
                AbiItem::Function(name) => match entry_for(entries, selector_of(name@)) {
                    Some(idx) => Ok(pre.push((idx as u64, name@))),
                    None => Err(AbiError::NoEntryPoint),
                },
                AbiItem::Event => Ok(pre),
                _ => Err(AbiError::Unsupported),
            },
        }
    }
}

/// The mappings as plain values.
pub open spec fn mappings_view(m: Seq<(u64, String)>) -> Seq<(u64, Seq<char>)> {
    m.map_values(|e: (u64, String)| (e.0, e.1@))
}

/// The index of the first entry point with the given selector.
fn find_entry(entries: &Vec<EntryPoint>, sel: &Vec<u32>) -> (r: Option<usize>)
    ensures
        r == entry_for(entries@, sel@),
{
    let mut i: usize = 0;
    assert(entries@.subrange(0, entries@.len() as int) =~= entries@);
    while i < entries.len()
        invariant
            i <= entries@.len(),
            entry_for(entries@, sel@) == entry_for(entries@.subrange(i as int, entries@.len() as int), sel@),
        decreases entries@.len() - i,
    {
        let ghost rest = entries@.subrange(i as int, entries@.len() as int);
        assert(rest.drop_first() =~= entries@.subrange(i + 1, entries@.len() as int));
        assert(rest[0] == entries@[i as int]);
        if crate::types::same_digits(&entries[i].selector, sel) {
            return Some(entries[i].function_idx);
        }
        i = i + 1;
    }
    None
}

/// The user-function names that a contract's ABI gives: each ABI function is
/// matched by its selector to an external entry point. A contract without an
/// ABI gives none.
pub fn extract_contract_abi(contract_class: &ContractClass) -> (r: Result<Vec<(u64, String)>, AbiError>)
    ensures
        match contract_class.abi {
            None => r matches Ok(m) && m@.len() == 0,
            Some(items) => match (r, abi_mappings(items@, contract_class.external@)) {
                (Ok(m), Ok(s)) => mappings_view(m@) == s,
                (Err(e), Err(f)) => e == f,
                _ => false,
            },
        },
{
    let items = match &contract_class.abi {
        Some(items) => items,
        None => {
            return Ok(Vec::new());
        },
    };
    let ghost entries = contract_class.external@;
    let mut out: Vec<(u64, String)> = Vec::new();
    let mut i: usize = 0;
    assert(mappings_view(out@) =~= seq![]);
    assert(abi_mappings(items@.subrange(0, 0), entries) == abi_mappings(seq![], entries));
    while i < items.len()
        invariant
            entries == contract_class.external@,
            contract_class.abi == Some(*items),
            i <= items@.len(),
            abi_mappings(items@.subrange(0, i as int), entries) == Ok::<Seq<(u64, Seq<char>)>, AbiError>(
                mappings_view(out@),
            ),
        decreases items@.len() - i,
    {
        let ghost pre = items@.subrange(0, i as int);
        let ghost next = items@.subrange(0, i + 1);
        assert(next.drop_last() =~= pre);
        assert(next.last() == items@[i as int]);
        match &items[i] {
            AbiItem::Function(name) => {
                let sel = selector(name);
                match find_entry(&contract_class.external, &sel) {
                    Some(idx) => {
                        let ghost before = out@;
                        out.push((idx as u64, name.clone()));
                        assert(mappings_view(out@) =~= mappings_view(before).push((idx as u64, name@)));
                    },
                    None => {
                        proof {
                            lemma_abi_error_persists(items@, entries, i as int + 1);
                        }
                        return Err(AbiError::NoEntryPoint);
                    },
                }
            },
            AbiItem::Event => {},
            _ => {
                proof {
                    lemma_abi_error_persists(items@, entries, i as int + 1);
                }
                return Err(AbiError::Unsupported);
            },
        }
        i = i + 1;
    }
    assert(items@.subrange(0, items@.len() as int) =~= items@);
    Ok(out)
}

/// Once a prefix of the items fails, the whole list fails with its error.
proof fn lemma_abi_error_persists(items: Seq<AbiItem>, entries: Seq<EntryPoint>, n: int)
    requires
        0 <= n <= items.len(),
        abi_mappings(items.subrange(0, n), entries) is Err,
    ensures
        abi_mappings(items, entries) == abi_mappings(items.subrange(0, n), entries),
    decreases items.len() - n,
{
    if n < items.len() {
        let next = items.subrange(0, n + 1);
        assert(next.drop_last() =~= items.subrange(0, n));
        lemma_abi_error_persists(items, entries, n + 1);
    } else {
        assert(items.subrange(0, n) =~= items);
    }
}

} // verus!
