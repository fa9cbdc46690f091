use polyfill::BuiltinType;
use polyfill::Document;
use polyfill::FuncPolyfill;
use polyfill::Id;
use polyfill::InterfaceFunc;
use polyfill::InterfaceFuncParam;
use polyfill::Module;
use polyfill::ModulePolyfill;
use polyfill::ParamPolyfill;
use polyfill::ParamUnknown;
use polyfill::Polyfill;
use polyfill::PolyfillError;
use polyfill::RepEquality;
use polyfill::TypeRef;

fn param(name: &str, ty_name: &str, ty: BuiltinType) -> InterfaceFuncParam {
    InterfaceFuncParam {
        name: Id::new(name),
        tref: TypeRef {
            name: Id::new(ty_name),
            ty,
        },
    }
}

fn func(
    name: &str,
    params: Vec<InterfaceFuncParam>,
    results: Vec<InterfaceFuncParam>,
) -> InterfaceFunc {
    InterfaceFunc {
        name: Id::new(name),
        params,
        results,
    }
}

fn module(name: &str, funcs: Vec<InterfaceFunc>) -> Module {
    Module {
        name: Id::new(name),
        funcs,
    }
}

fn doc(modules: Vec<Module>) -> Document {
    Document { modules }
}

#[test]
fn example_full_compatibility() {
    let old = func(
        "foo",
        vec![param("a", "int32", BuiltinType::S32)],
        vec![param("b", "int32", BuiltinType::S32)],
    );
    let new = func(
        "foo",
        vec![param("a", "int32", BuiltinType::S32)],
        vec![param("b", "int32", BuiltinType::S32)],
    );
    let fp = FuncPolyfill::new(&new, &old);
    assert_eq!(fp.mapped_params.len(), 1);
    assert_eq!(fp.mapped_params[0].old.name.as_str(), "a");
    assert_eq!(fp.mapped_params[0].new.name.as_str(), "a");
    assert_eq!(fp.mapped_params[0].repeq, RepEquality::Eq);
    assert_eq!(fp.mapped_results.len(), 1);
    assert_eq!(fp.mapped_results[0].old.name.as_str(), "b");
    assert_eq!(fp.mapped_results[0].new.name.as_str(), "b");
    assert_eq!(fp.mapped_results[0].repeq, RepEquality::Eq);
    assert_eq!(fp.unknown_params.len(), 0);
    assert_eq!(fp.unknown_results.len(), 0);
    assert!(fp.full_compat());
    assert_eq!(fp.report(), "foo: full compatibility");
}

#[test]
fn example_superset_parameter() {
    let old = func(
        "foo",
        vec![param("a", "int32", BuiltinType::S32)],
        vec![param("b", "int32", BuiltinType::S32)],
    );
    let new = func(
        "foo",
        vec![param("a", "int64", BuiltinType::S64)],
        vec![param("b", "int32", BuiltinType::S32)],
    );
    let fp = FuncPolyfill::new(&new, &old);
    assert!(!fp.full_compat());
    assert_eq!(fp.mapped_params[0].repeq, RepEquality::Superset);
    let report = fp.report();
    assert!(report.starts_with("foo:"));
    assert!(report.contains("a: int32 is superset-compatible with int64"));
    assert!(report.contains("result b: compatible"));
    assert_eq!(
        report,
        "foo:\n\t\tparam a: int32 is superset-compatible with int64\n\t\tresult b: compatible"
    );
}

#[test]
fn example_unmatched_parameters() {
    let old = func("foo", vec![param("x", "int32", BuiltinType::S32)], vec![]);
    let new = func("foo", vec![param("y", "int32", BuiltinType::S32)], vec![]);
    let fp = FuncPolyfill::new(&new, &old);
    assert_eq!(fp.mapped_params.len(), 0);
    assert_eq!(fp.unknown_params.len(), 2);
    assert!(matches!(&fp.unknown_params[0], ParamUnknown::Old(p) if p.name.as_str() == "x"));
    assert!(matches!(&fp.unknown_params[1], ParamUnknown::New(p) if p.name.as_str() == "y"));
    let report = fp.report();
    assert!(report.contains("old param x: no corresponding result!"));
    assert!(report.contains("new param y: no corresponding result!"));
}

#[test]
fn example_module_not_present() {
    let new_doc = doc(vec![module(
        "mod_a",
        vec![func("foo", vec![], vec![])],
    )]);
    let old_doc = doc(vec![module(
        "mod_a",
        vec![func("foo", vec![], vec![])],
    )]);
    let mapping = vec![("mod_a".to_string(), "mod_b".to_string())];
    let r = Polyfill::new(&new_doc, &old_doc, &mapping);
    match r {
        Err(PolyfillError::ModuleNotPresent { name }) => {
            assert_eq!(name.as_str(), "mod_b");
        }
        _ => panic!("expected ModuleNotPresent"),
    }
}

#[test]
fn module_not_present_on_new_side() {
    let new_doc = doc(vec![]);
    let old_doc = doc(vec![module("mod_b", vec![])]);
    let mapping = vec![("mod_a".to_string(), "mod_b".to_string())];
    let r = Polyfill::new(&new_doc, &old_doc, &mapping);
    match r {
        Err(e) => assert_eq!(e.message(), "Module not present: mod_a"),
        Ok(_) => panic!("expected an error"),
    }
}

#[test]
fn func_not_present_error() {
    let newmod = module("m", vec![func("g", vec![], vec![])]);
    let oldmod = module("m", vec![func("f", vec![], vec![])]);
    let r = ModulePolyfill::new(&newmod, &oldmod);
    match r {
        Err(PolyfillError::FuncNotPresent { name }) => {
            assert_eq!(name.as_str(), "f");
        }
        _ => panic!("expected FuncNotPresent"),
    }
    let r2 = ModulePolyfill::new(&newmod, &oldmod);
    assert_eq!(
        r2.err().map(|e| e.message()),
        Some("Function not present: f".to_string())
    );
}

#[test]
fn module_polyfill_matches_every_old_function() {
    let newmod = module(
        "m_new",
        vec![
            func("extra", vec![], vec![]),
            func("snd", vec![], vec![]),
            func("fst", vec![], vec![]),
        ],
    );
    let oldmod = module(
        "m_old",
        vec![func("fst", vec![], vec![]), func("snd", vec![], vec![])],
    );
    let mp = ModulePolyfill::new(&newmod, &oldmod).unwrap();
    assert_eq!(mp.funcs.len(), 2);
    assert_eq!(mp.funcs[0].old.name.as_str(), "fst");
    assert_eq!(mp.funcs[1].old.name.as_str(), "snd");
    assert_eq!(mp.funcs[0].new.name.as_str(), "fst");
    assert_eq!(mp.funcs[1].new.name.as_str(), "snd");
}

#[test]
fn param_partition_counts() {
    let old = func(
        "f",
        vec![
            param("a", "u8", BuiltinType::U8),
            param("b", "u16", BuiltinType::U16),
            param("only_old", "u8", BuiltinType::U8),
        ],
        vec![],
    );
    let new = func(
        "f",
        vec![
            param("b", "u16", BuiltinType::U16),
            param("a", "u8", BuiltinType::U8),
            param("only_new", "u8", BuiltinType::U8),
        ],
        vec![],
    );
    let fp = FuncPolyfill::new(&new, &old);
    let old_unknowns = fp
        .unknown_params
        .iter()
        .filter(|u| matches!(u, ParamUnknown::Old(_)))
        .count();
    let new_unknowns = fp
        .unknown_params
        .iter()
        .filter(|u| matches!(u, ParamUnknown::New(_)))
        .count();
    assert_eq!(fp.mapped_params.len() + old_unknowns, old.params.len());
    assert_eq!(fp.mapped_params.len() + new_unknowns, new.params.len());
    assert_eq!(fp.mapped_params.len(), 2);
    // mapped pairs follow the old declaration order
    assert_eq!(fp.mapped_params[0].old.name.as_str(), "a");
    assert_eq!(fp.mapped_params[1].old.name.as_str(), "b");
}

#[test]
fn result_partition_reversed_direction() {
    // The result pass classifies source = new result type against target =
    // old result type: a new int32 result satisfies an old int64 caller.
    let old = func("f", vec![], vec![param("b", "int64", BuiltinType::S64)]);
    let new = func("f", vec![], vec![param("b", "int32", BuiltinType::S32)]);
    let fp = FuncPolyfill::new(&new, &old);
    assert_eq!(fp.mapped_results.len(), 1);
    assert_eq!(fp.mapped_results[0].repeq, RepEquality::Superset);
    let report = fp.report();
    assert!(report.contains("result b: int64 is superset-compatible with int32"));

    let old_unknowns = fp
        .unknown_results
        .iter()
        .filter(|u| matches!(u, ParamUnknown::Old(_)))
        .count();
    assert_eq!(fp.mapped_results.len() + old_unknowns, old.results.len());
}

#[test]
fn representability_reflexive() {
    let types = [
        BuiltinType::U8,
        BuiltinType::U16,
        BuiltinType::U32,
        BuiltinType::U64,
        BuiltinType::S8,
        BuiltinType::S16,
        BuiltinType::S32,
        BuiltinType::S64,
    ];
    for t in types.iter() {
        assert_eq!(t.representable(t), RepEquality::Eq);
    }
}

#[test]
fn representability_widenings() {
    assert_eq!(
        BuiltinType::U8.representable(&BuiltinType::U64),
        RepEquality::Superset
    );
    assert_eq!(
        BuiltinType::U64.representable(&BuiltinType::U8),
        RepEquality::NotEq
    );
    assert_eq!(
        BuiltinType::S32.representable(&BuiltinType::S64),
        RepEquality::Superset
    );
    assert_eq!(
        BuiltinType::S32.representable(&BuiltinType::U32),
        RepEquality::NotEq
    );
    assert_eq!(
        BuiltinType::U16.representable(&BuiltinType::S16),
        RepEquality::NotEq
    );
}

#[test]
fn report_is_pure() {
    let new_doc = doc(vec![module(
        "m",
        vec![func("foo", vec![param("a", "u8", BuiltinType::U8)], vec![])],
    )]);
    let old_doc = doc(vec![module(
        "m",
        vec![func("foo", vec![param("a", "u16", BuiltinType::U16)], vec![])],
    )]);
    let mapping = vec![("m".to_string(), "m".to_string())];
    let p = Polyfill::new(&new_doc, &old_doc, &mapping).unwrap();
    let first = p.report();
    let second = p.report();
    assert_eq!(first, second);
}

#[test]
fn full_compat_iff_full_compat_report() {
    let compat = FuncPolyfill::new(
        &func("foo", vec![], vec![]),
        &func("foo", vec![], vec![]),
    );
    assert!(compat.full_compat());
    assert_eq!(compat.report(), "foo: full compatibility");

    let not_compat = FuncPolyfill::new(
        &func("foo", vec![param("a", "int64", BuiltinType::S64)], vec![]),
        &func("foo", vec![param("a", "int32", BuiltinType::S32)], vec![]),
    );
    assert!(!not_compat.full_compat());
    assert_ne!(not_compat.report(), "foo: full compatibility");
}

#[test]
fn whole_report_composition() {
    let new_doc = doc(vec![module(
        "new_mod",
        vec![
            func(
                "foo",
                vec![param("a", "int32", BuiltinType::S32)],
                vec![param("b", "int32", BuiltinType::S32)],
            ),
            func("bar", vec![param("y", "int64", BuiltinType::S64)], vec![]),
        ],
    )]);
    let old_doc = doc(vec![module(
        "old_mod",
        vec![
            func(
                "foo",
                vec![param("a", "int32", BuiltinType::S32)],
                vec![param("b", "int32", BuiltinType::S32)],
            ),
            func("bar", vec![param("x", "int32", BuiltinType::S32)], vec![]),
        ],
    )]);
    let mapping = vec![("new_mod".to_string(), "old_mod".to_string())];
    let p = Polyfill::new(&new_doc, &old_doc, &mapping).unwrap();
    assert_eq!(p.modules.len(), 1);
    let expected = "Implement module new_mod in terms of old_mod:\n\
                    \tfoo: full compatibility\n\
                    \tbar:\n\
                    \t\told param x: no corresponding result!\n\
                    \t\tnew param y: no corresponding result!";
    assert_eq!(p.report(), expected);
}

#[test]
fn empty_mapping_gives_empty_report() {
    let new_doc = doc(vec![]);
    let old_doc = doc(vec![]);
    let mapping: Vec<(String, String)> = vec![];
    let p = Polyfill::new(&new_doc, &old_doc, &mapping).unwrap();
    assert_eq!(p.modules.len(), 0);
    assert_eq!(p.report(), "");
}

#[test]
fn empty_module_report_keeps_heading() {
    let mp = ModulePolyfill::new(&module("n", vec![]), &module("o", vec![])).unwrap();
    assert_eq!(mp.report(), "Implement module n in terms of o:\n\t");
}

#[test]
fn mapping_order_is_kept() {
    let new_doc = doc(vec![
        module("n1", vec![]),
        module("n2", vec![]),
    ]);
    let old_doc = doc(vec![
        module("o1", vec![]),
        module("o2", vec![]),
    ]);
    let mapping = vec![
        ("n2".to_string(), "o2".to_string()),
        ("n1".to_string(), "o1".to_string()),
    ];
    let p = Polyfill::new(&new_doc, &old_doc, &mapping).unwrap();
    assert_eq!(p.modules.len(), 2);
    assert_eq!(p.modules[0].new.name.as_str(), "n2");
    assert_eq!(p.modules[1].new.name.as_str(), "n1");
    assert_eq!(
        p.report(),
        "Implement module n2 in terms of o2:\n\t\nImplement module n1 in terms of o1:\n\t"
    );
}

#[test]
fn renamed_param_report() {
    let pp = ParamPolyfill {
        new: param("b", "u8", BuiltinType::U8),
        old: param("a", "u8", BuiltinType::U8),
        repeq: RepEquality::Eq,
    };
    assert!(!pp.full_compat());
    assert_eq!(pp.report(), "a => b: compatible types");
}

#[test]
fn renamed_func_header() {
    let fp = FuncPolyfill::new(&func("foo", vec![], vec![]), &func("bar", vec![], vec![]));
    assert!(!fp.full_compat());
    assert_eq!(fp.report(), "bar => foo");
}

#[test]
fn incompatible_param_report() {
    let old = func("f", vec![param("a", "int32", BuiltinType::S32)], vec![]);
    let new = func("f", vec![param("a", "int8", BuiltinType::S8)], vec![]);
    let fp = FuncPolyfill::new(&new, &old);
    assert_eq!(fp.mapped_params[0].repeq, RepEquality::NotEq);
    assert_eq!(
        fp.report(),
        "f:\n\t\tparam a: int32 is incompatible with new int8"
    );
}

#[test]
fn unknown_accessors() {
    let old_side = ParamUnknown::Old(param("p", "u8", BuiltinType::U8));
    let new_side = ParamUnknown::New(param("q", "u8", BuiltinType::U8));
    assert_eq!(old_side.which(), "old");
    assert_eq!(new_side.which(), "new");
    assert_eq!(old_side.param().name.as_str(), "p");
    assert_eq!(new_side.param().name.as_str(), "q");
}

#[test]
fn module_lookup_by_name() {
    let m = module(
        "m",
        vec![func("f", vec![], vec![]), func("g", vec![], vec![])],
    );
    assert!(m.func(&Id::new("g")).is_some());
    assert_eq!(m.func(&Id::new("g")).unwrap().name.as_str(), "g");
    assert!(m.func(&Id::new("h")).is_none());

    let d = doc(vec![module("a", vec![]), module("b", vec![])]);
    assert!(d.module(&Id::new("b")).is_some());
    assert!(d.module(&Id::new("c")).is_none());
}

#[test]
fn identifier_equality() {
    let a = Id::new("same");
    let b = Id::new("same");
    let c = Id::new("other");
    assert!(a.eq_id(&b));
    assert!(!a.eq_id(&c));
    assert_eq!(a.as_str(), "same");
}
