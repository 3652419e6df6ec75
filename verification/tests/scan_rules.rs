use anchor::cfg_expr::{check_is_disabled, check_is_enabled, eval_cfg, CfgExpr};
use anchor::command::{is_context_name, strip_underscore};
use anchor::errors::BuildError;
use anchor::generate::resolve_submodule;

fn b(s: &str) -> Vec<u8> {
    s.as_bytes().to_vec()
}

fn feats(names: &[&str]) -> Vec<Vec<u8>> {
    names.iter().map(|n| n.as_bytes().to_vec()).collect()
}

#[test]
fn feature_gates() {
    let features = feats(&["std", "extra"]);
    assert!(eval_cfg(&CfgExpr::Feature(b("std")), &features));
    assert!(!eval_cfg(&CfgExpr::Feature(b("missing")), &features));
    assert!(eval_cfg(&CfgExpr::Other, &features));
}

#[test]
fn boolean_combinators() {
    let features = feats(&["std"]);
    let not_missing = CfgExpr::Not(Box::new(CfgExpr::Feature(b("missing"))));
    assert!(eval_cfg(&not_missing, &features));
    let all = CfgExpr::All(vec![CfgExpr::Feature(b("std")), CfgExpr::Other]);
    assert!(eval_cfg(&all, &features));
    let all_fails = CfgExpr::All(vec![CfgExpr::Feature(b("std")), CfgExpr::Feature(b("missing"))]);
    assert!(!eval_cfg(&all_fails, &features));
    let any = CfgExpr::Any(vec![CfgExpr::Feature(b("missing")), CfgExpr::Feature(b("std"))]);
    assert!(eval_cfg(&any, &features));
    let any_fails = CfgExpr::Any(vec![CfgExpr::Feature(b("missing"))]);
    assert!(!eval_cfg(&any_fails, &features));
    // Empty combinators: `all` of nothing holds, `any` of nothing fails.
    assert!(eval_cfg(&CfgExpr::All(Vec::new()), &features));
    assert!(!eval_cfg(&CfgExpr::Any(Vec::new()), &features));
}

#[test]
fn disabled_when_any_condition_fails() {
    let features = feats(&["std"]);
    let conds = vec![CfgExpr::Feature(b("std")), CfgExpr::Feature(b("missing"))];
    assert!(check_is_disabled(&conds, &features));
    assert!(!check_is_enabled(&conds, &features));
    let good = vec![CfgExpr::Feature(b("std"))];
    assert!(!check_is_disabled(&good, &features));
    assert!(check_is_enabled(&good, &features));
    assert!(check_is_enabled(&Vec::new(), &features));
}

#[test]
fn context_parameter_names() {
    assert!(is_context_name(b"context"));
    assert!(is_context_name(b"ctx"));
    assert!(is_context_name(b"_context"));
    assert!(is_context_name(b"_ctx"));
    assert!(!is_context_name(b"count"));
    assert_eq!(strip_underscore(b"_value"), b"value");
    assert_eq!(strip_underscore(b"value"), b"value");
    assert_eq!(strip_underscore(b"__x"), b"_x");
}

#[test]
fn submodule_resolution() {
    assert_eq!(resolve_submodule(true, false), Ok(false));
    assert_eq!(resolve_submodule(false, true), Ok(true));
    assert_eq!(resolve_submodule(true, true), Err(BuildError::AmbiguousSubmodule));
    assert_eq!(resolve_submodule(false, false), Err(BuildError::MissingSubmodule));
}
