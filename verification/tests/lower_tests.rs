use ocql::lir::{LirBinding, LirCompOp, LirArithOp, LirFilter, LirPlan, LirValue};
use ocql::lower::{lower_mir, LowerError};
use ocql::mir::{
    MirArithExpr, MirArithOp, MirAssign, MirAtom, MirBody, MirCompOp, MirGuard, MirParam, MirPredicate,
    MirProgram, MirScan, MirTerm, MirType, MirTypeCheck,
};

fn simple_pred(name: &str, params: Vec<(&str, MirType)>, atoms: Vec<MirAtom>) -> MirPredicate {
    let params = params.into_iter().map(|(n, t)| MirParam::new(n, t)).collect();
    MirPredicate::new(name, params, atoms)
}

#[test]
fn lower_single_scan() {
    // predicate p(int x) { val(x) }
    let mir = MirProgram {
        predicates: vec![simple_pred("p", vec![("x", MirType::Int)], vec![MirAtom::Scan(MirScan::new(
            "val",
            vec![MirTerm::var("x")],
        ))])],
    };

    let lir = lower_mir(&mir).unwrap();
    assert_eq!(lir.strata.len(), 1);
    assert_eq!(lir.strata[0].rules.len(), 1);
    assert!(!lir.strata[0].recursive);

    let rule = &lir.strata[0].rules[0];
    assert_eq!(rule.target, "p");
    assert!(matches!(&rule.body, LirPlan::Scan { relation, .. } if relation == "val"));
}

#[test]
fn lower_join_two_scans() {
    // predicate p(int x, int y) { a(x) and b(x, y) }
    let mir = MirProgram {
        predicates: vec![simple_pred(
            "p",
            vec![("x", MirType::Int), ("y", MirType::Int)],
            vec![
                MirAtom::Scan(MirScan::new("a", vec![MirTerm::var("x")])),
                MirAtom::Scan(MirScan::new("b", vec![MirTerm::var("x"), MirTerm::var("y")])),
            ],
        )],
    };

    let lir = lower_mir(&mir).unwrap();
    let rule = &lir.strata[0].rules[0];
    match &rule.body {
        LirPlan::Project { input, columns } => {
            assert_eq!(columns, &["x", "y"]);
            match input.as_ref() {
                LirPlan::WcoJoin { atoms, variable_order, .. } => {
                    assert_eq!(atoms.len(), 2);
                    assert_eq!(atoms[0].relation, "a");
                    assert_eq!(atoms[1].relation, "b");
                    // x should come first (shared variable)
                    assert_eq!(variable_order[0], "x");
                }
                other => panic!("expected WcoJoin, got {:?}", other),
            }
        }
        LirPlan::WcoJoin { atoms, variable_order, .. } => {
            assert_eq!(atoms.len(), 2);
            assert_eq!(variable_order[0], "x");
        }
        other => panic!("expected Project or WcoJoin, got {:?}", other),
    }
}

#[test]
fn lower_with_guard() {
    // predicate p(int x) { val(x) and x > 0 }
    let mir = MirProgram {
        predicates: vec![simple_pred(
            "p",
            vec![("x", MirType::Int)],
            vec![
                MirAtom::Scan(MirScan::new("val", vec![MirTerm::var("x")])),
                MirAtom::Guard(MirGuard { left: MirTerm::var("x"), op: MirCompOp::Gt, right: MirTerm::integer(0) }),
            ],
        )],
    };

    let lir = lower_mir(&mir).unwrap();
    let rule = &lir.strata[0].rules[0];
    match &rule.body {
        LirPlan::Filter { input, condition } => {
            assert!(matches!(input.as_ref(), LirPlan::Scan { relation, .. } if relation == "val"));
            assert!(matches!(condition, LirFilter::Comparison { op: LirCompOp::Gt, .. }));
        }
        other => panic!("expected Filter, got {:?}", other),
    }
}

#[test]
fn lower_with_assignment() {
    // int doubled(int x) { val(x) and result = x * 2 }
    let mir = MirProgram {
        predicates: vec![simple_pred(
            "doubled",
            vec![("x", MirType::Int), ("result", MirType::Int)],
            vec![
                MirAtom::Scan(MirScan::new("val", vec![MirTerm::var("x")])),
                MirAtom::Assign(MirAssign {
                    result_var: "result".to_string(),
                    expr: MirArithExpr { left: MirTerm::var("x"), op: MirArithOp::Mul, right: MirTerm::integer(2) },
                }),
            ],
        )],
    };

    let lir = lower_mir(&mir).unwrap();
    let rule = &lir.strata[0].rules[0];
    match &rule.body {
        LirPlan::Extend { input, column, expr } => {
            assert_eq!(column, "result");
            assert!(matches!(input.as_ref(), LirPlan::Scan { .. }));
            assert!(matches!(expr.op, LirArithOp::Mul));
        }
        other => panic!("expected Extend, got {:?}", other),
    }
}

#[test]
fn lower_negation_anti_join() {
    // predicate nonsink(int x) { node(x) and not sink(x) }
    let mir = MirProgram {
        predicates: vec![simple_pred(
            "nonsink",
            vec![("x", MirType::Int)],
            vec![
                MirAtom::Scan(MirScan::new("node", vec![MirTerm::var("x")])),
                MirAtom::NegScan(MirScan::new("sink", vec![MirTerm::var("x")])),
            ],
        )],
    };

    let lir = lower_mir(&mir).unwrap();
    let rule = &lir.strata[0].rules[0];
    match &rule.body {
        LirPlan::AntiJoin { positive, negative, key_columns } => {
            assert!(matches!(positive.as_ref(), LirPlan::Scan { relation, .. } if relation == "node"));
            assert!(matches!(negative.as_ref(), LirPlan::Scan { relation, .. } if relation == "sink"));
            assert_eq!(key_columns, &["x"]);
        }
        other => panic!("expected AntiJoin, got {:?}", other),
    }
}

#[test]
fn lower_recursive_stratum() {
    // predicate path(int a, int b) {
    //     edge(a, b) or exists(int mid | edge(a, mid) and path(mid, b))
    // }
    let mir = MirProgram {
        predicates: vec![MirPredicate {
            name: "path".to_string(),
            params: vec![MirParam::new("a", MirType::Int), MirParam::new("b", MirType::Int)],
            body: MirBody::Disjunction(vec![
                vec![MirAtom::Scan(MirScan::new("edge", vec![MirTerm::var("a"), MirTerm::var("b")]))],
                vec![
                    MirAtom::Scan(MirScan::new("edge", vec![MirTerm::var("a"), MirTerm::var("mid")])),
                    MirAtom::Scan(MirScan::new("path", vec![MirTerm::var("mid"), MirTerm::var("b")])),
                ],
            ]),
            is_abstract: false,
        }],
    };

    let lir = lower_mir(&mir).unwrap();
    assert_eq!(lir.strata.len(), 1);
    assert!(lir.strata[0].recursive);
    assert_eq!(lir.strata[0].rules.len(), 2);
}

#[test]
fn lower_stratified_negation() {
    // predicate a(int x) { val(x) }
    // predicate b(int x) { val(x) and not a(x) }
    let mir = MirProgram {
        predicates: vec![
            simple_pred("a", vec![("x", MirType::Int)], vec![MirAtom::Scan(MirScan::new(
                "val",
                vec![MirTerm::var("x")],
            ))]),
            simple_pred(
                "b",
                vec![("x", MirType::Int)],
                vec![
                    MirAtom::Scan(MirScan::new("val", vec![MirTerm::var("x")])),
                    MirAtom::NegScan(MirScan::new("a", vec![MirTerm::var("x")])),
                ],
            ),
        ],
    };

    let lir = lower_mir(&mir).unwrap();
    // Should be 2 strata: a first, then b (b negates a)
    assert_eq!(lir.strata.len(), 2);
    assert!(lir.strata[0].rules.iter().any(|r| r.target == "a"));
    assert!(lir.strata[1].rules.iter().any(|r| r.target == "b"));
}

#[test]
fn lower_negation_cycle_error() {
    // predicate p(int x) { not q(x) }
    // predicate q(int x) { not p(x) }
    let mir = MirProgram {
        predicates: vec![
            simple_pred("p", vec![("x", MirType::Int)], vec![MirAtom::NegScan(MirScan::new(
                "q",
                vec![MirTerm::var("x")],
            ))]),
            simple_pred("q", vec![("x", MirType::Int)], vec![MirAtom::NegScan(MirScan::new(
                "p",
                vec![MirTerm::var("x")],
            ))]),
        ],
    };

    let result = lower_mir(&mir);
    assert!(result.is_err());
}

#[test]
fn lower_disjunction() {
    // predicate ab(int x) { a(x) or b(x) }
    let mir = MirProgram {
        predicates: vec![MirPredicate {
            name: "ab".to_string(),
            params: vec![MirParam::new("x", MirType::Int)],
            body: MirBody::Disjunction(vec![
                vec![MirAtom::Scan(MirScan::new("a", vec![MirTerm::var("x")]))],
                vec![MirAtom::Scan(MirScan::new("b", vec![MirTerm::var("x")]))],
            ]),
            is_abstract: false,
        }],
    };

    let lir = lower_mir(&mir).unwrap();
    // Disjunction → 2 rules for the same target
    assert_eq!(lir.strata[0].rules.len(), 2);
    assert!(lir.strata[0].rules.iter().all(|r| r.target == "ab"));
}

#[test]
fn lower_wildcard_scan() {
    // predicate first(int x) { rel(x, _, _) }
    let mir = MirProgram {
        predicates: vec![simple_pred(
            "first",
            vec![("x", MirType::Int)],
            vec![MirAtom::Scan(MirScan::new("rel", vec![MirTerm::var("x"), MirTerm::Wildcard, MirTerm::Wildcard]))],
        )],
    };

    let lir = lower_mir(&mir).unwrap();
    let rule = &lir.strata[0].rules[0];
    // Wildcards should become unique fresh variables
    match &rule.body {
        LirPlan::Project { input, .. } => match input.as_ref() {
            LirPlan::Scan { bindings, .. } => {
                assert_eq!(bindings.len(), 3);
                assert!(matches!(&bindings[0], LirBinding::Var(n) if n == "x"));
                let n1 = bindings[1].as_var().unwrap();
                let n2 = bindings[2].as_var().unwrap();
                assert!(n1.starts_with("_lir"));
                assert!(n2.starts_with("_lir"));
                assert_ne!(n1, n2);
            }
            _ => panic!("expected Scan"),
        },
        LirPlan::Scan { bindings, .. } => {
            assert_eq!(bindings.len(), 3);
        }
        other => panic!("expected Scan or Project, got {:?}", other),
    }
}

#[test]
fn lower_constant_binding() {
    // predicate p(int x) { rel(x, 42) }
    let mir = MirProgram {
        predicates: vec![simple_pred(
            "p",
            vec![("x", MirType::Int)],
            vec![MirAtom::Scan(MirScan::new("rel", vec![MirTerm::var("x"), MirTerm::integer(42)]))],
        )],
    };

    let lir = lower_mir(&mir).unwrap();
    let rule = &lir.strata[0].rules[0];
    let scan = match &rule.body {
        LirPlan::Project { input, .. } => input.as_ref(),
        other => other,
    };
    if let LirPlan::Scan { bindings, .. } = scan {
        assert!(matches!(&bindings[0], LirBinding::Var(n) if n == "x"));
        assert!(matches!(&bindings[1], LirBinding::Const(LirValue::Int(42))));
    } else {
        panic!("expected Scan, got {:?}", scan);
    }
}

#[test]
fn lower_abstract_predicate_no_rules() {
    let mir = MirProgram {
        predicates: vec![MirPredicate::abstract_pred("abs", vec![MirParam::new("x", MirType::Int)])],
    };

    let lir = lower_mir(&mir).unwrap();
    assert!(lir.strata.is_empty());
}

#[test]
fn lower_type_check() {
    // predicate p(int x) { SmallNum#char(x) and x > 0 }
    let mir = MirProgram {
        predicates: vec![simple_pred(
            "p",
            vec![("x", MirType::Int)],
            vec![
                MirAtom::TypeCheck(MirTypeCheck { var: "x".to_string(), type_predicate: "SmallNum#char".to_string() }),
                MirAtom::Guard(MirGuard { left: MirTerm::var("x"), op: MirCompOp::Gt, right: MirTerm::integer(0) }),
            ],
        )],
    };

    let lir = lower_mir(&mir).unwrap();
    let rule = &lir.strata[0].rules[0];
    match &rule.body {
        LirPlan::Filter { input, .. } => match input.as_ref() {
            LirPlan::Scan { relation, .. } => {
                assert_eq!(relation, "SmallNum#char");
            }
            other => panic!("expected Scan, got {:?}", other),
        },
        other => panic!("expected Filter, got {:?}", other),
    }
}

#[test]
fn program_metadata() {
    let mir = MirProgram {
        predicates: vec![
            simple_pred("a", vec![("x", MirType::Int)], vec![MirAtom::Scan(MirScan::new(
                "val",
                vec![MirTerm::var("x")],
            ))]),
            simple_pred("b", vec![("x", MirType::Int)], vec![MirAtom::Scan(MirScan::new(
                "val",
                vec![MirTerm::var("x")],
            ))]),
        ],
    };

    let lir = lower_mir(&mir).unwrap();
    let rels = lir.defined_relations();
    assert!(rels.contains(&"a"));
    assert!(rels.contains(&"b"));
    assert_eq!(lir.rule_count(), 2);
}

#[test]
fn negation_cycle_names_exactly_its_component() {
    // p and q negate each other; r only reads val and stays out of the cycle.
    let mir = MirProgram {
        predicates: vec![
            simple_pred("r", vec![("x", MirType::Int)], vec![MirAtom::Scan(MirScan::new("val", vec![MirTerm::var("x")]))]),
            simple_pred("p", vec![("x", MirType::Int)], vec![MirAtom::NegScan(MirScan::new("q", vec![MirTerm::var("x")]))]),
            simple_pred("q", vec![("x", MirType::Int)], vec![MirAtom::NegScan(MirScan::new("p", vec![MirTerm::var("x")]))]),
        ],
    };
    match lower_mir(&mir) {
        Err(LowerError::NegationCycle(mut names)) => {
            names.sort();
            assert_eq!(names, vec!["p".to_string(), "q".to_string()]);
        }
        Ok(_) => panic!("a negation cycle was accepted"),
    }
}

#[test]
fn independent_predicates_get_separate_strata() {
    let mir = MirProgram {
        predicates: vec![
            simple_pred("a", vec![("x", MirType::Int)], vec![MirAtom::Scan(MirScan::new("val", vec![MirTerm::var("x")]))]),
            simple_pred("b", vec![("x", MirType::Int)], vec![MirAtom::Scan(MirScan::new("val", vec![MirTerm::var("x")]))]),
        ],
    };
    let lir = lower_mir(&mir).unwrap();
    assert_eq!(lir.strata.len(), 2);
    assert!(lir.strata.iter().all(|s| !s.recursive && s.rules.len() == 1));
}

#[test]
fn disjunction_multiple_rules() {
    // predicate ab(int x) { a(x) or b(x) }, its MIR written out
    let mir = MirProgram {
        predicates: vec![MirPredicate {
            name: "ab".to_string(),
            params: vec![MirParam::new("x", MirType::Int)],
            body: MirBody::Disjunction(vec![
                vec![MirAtom::Scan(MirScan::new("a", vec![MirTerm::var("x")]))],
                vec![MirAtom::Scan(MirScan::new("b", vec![MirTerm::var("x")]))],
            ]),
            is_abstract: false,
        }],
    };
    let lir = lower_mir(&mir).unwrap();
    assert!(lir.rule_count() >= 2);
}

#[test]
fn stratified_negation_ordering() {
    // predicate has_succ(int x) { edge(x, _) }
    // predicate no_succ(int x) { node(x) and not has_succ(x) }
    let mir = MirProgram {
        predicates: vec![
            simple_pred(
                "has_succ",
                vec![("x", MirType::Int)],
                vec![MirAtom::Scan(MirScan::new("edge", vec![MirTerm::var("x"), MirTerm::Wildcard]))],
            ),
            simple_pred(
                "no_succ",
                vec![("x", MirType::Int)],
                vec![
                    MirAtom::Scan(MirScan::new("node", vec![MirTerm::var("x")])),
                    MirAtom::NegScan(MirScan::new("has_succ", vec![MirTerm::var("x")])),
                ],
            ),
        ],
    };
    let lir = lower_mir(&mir).unwrap();
    let strata = &lir.strata;
    let has_succ_stratum = strata.iter().position(|s| s.rules.iter().any(|r| r.target == "has_succ"));
    let no_succ_stratum = strata.iter().position(|s| s.rules.iter().any(|r| r.target == "no_succ"));
    assert!(has_succ_stratum.unwrap() < no_succ_stratum.unwrap(), "has_succ should be evaluated before no_succ");
}
