use vstd::prelude::*;

verus! {

broadcast use vstd::std_specs::vec::axiom_vec_index_decreases;

/// A `cfg` condition as far as the build cares: feature tests combined
/// with `not`, `all` and `any`.  Anything else is treated as satisfied,
/// matching a scan that only evaluates feature gates.
#[derive(Debug)]
pub enum CfgExpr {
    /// `feature = "..."`, with the feature name.
    Feature(Vec<u8>),
    /// `not(...)`.
    Not(Box<CfgExpr>),
    /// `all(...)`.
    All(Vec<CfgExpr>),
    /// `any(...)`.
    Any(Vec<CfgExpr>),
    /// A condition the scan does not interpret.
    Other,
}

/// Whether a `cfg` condition holds under the given feature set.
pub open spec fn spec_cfg_enabled(e: CfgExpr, features: Seq<Seq<u8>>) -> bool
    decreases e,
{
    match e {
        CfgExpr::Feature(f) => features.contains(f@),
        CfgExpr::Not(inner) => !spec_cfg_enabled(*inner, features),
        CfgExpr::All(list) => forall|i: int|
            0 <= i < list@.len() ==> spec_cfg_enabled(#[trigger] list@[i], features),
        CfgExpr::Any(list) => exists|i: int|
            0 <= i < list@.len() && spec_cfg_enabled(#[trigger] list@[i], features),
        CfgExpr::Other => true,
    }
}

/// The view of a feature list.
pub open spec fn features_view(features: Seq<Vec<u8>>) -> Seq<Seq<u8>> {
    features.map_values(|f: Vec<u8>| f@)
}

/// Whether the feature set contains `name`.
pub fn has_feature(features: &Vec<Vec<u8>>, name: &[u8]) -> (r: bool)
    ensures
        r == features_view(features@).contains(name@),
{
    let mut i: usize = 0;
    while i < features.len()
        invariant
            0 <= i <= features@.len(),
            forall|j: int| 0 <= j < i ==> features_view(features@)[j] != name@,
        decreases features@.len() - i,
    {
        if crate::bytemap::bytes_cmp(features[i].as_slice(), name) == 0 {
            proof {
                assert(features_view(features@)[i as int] == name@);
            }
            return true;
        }
        i = i + 1;
    }
    proof {
        if features_view(features@).contains(name@) {
            let j = choose|j: int|
                0 <= j < features_view(features@).len() && features_view(features@)[j] == name@;
            assert(features_view(features@)[j] != name@);
        }
    }
    false
}

/// Evaluate a `cfg` condition under the given feature set.
pub fn eval_cfg(e: &CfgExpr, features: &Vec<Vec<u8>>) -> (r: bool)
    ensures
        r == spec_cfg_enabled(*e, features_view(features@)),
    decreases *e, 0int,
{
    match e {
        CfgExpr::Feature(f) => has_feature(features, f.as_slice()),
        CfgExpr::Not(inner) => !eval_cfg(inner, features),
        CfgExpr::All(list) => eval_all(list, features, 0),
        CfgExpr::Any(list) => eval_any(list, features, 0),
        CfgExpr::Other => true,
    }
}

/// Whether every condition from position `i` on holds.
fn eval_all(list: &Vec<CfgExpr>, features: &Vec<Vec<u8>>, i: usize) -> (r: bool)
    requires
        i <= list@.len(),
    ensures
        r == forall|j: int|
            i <= j < list@.len() ==> spec_cfg_enabled(#[trigger] list@[j], features_view(features@)),
    decreases *list, list@.len() - i + 1,
{
    if i >= list.len() {
        true
    } else {
        proof {
            vstd::std_specs::vec::axiom_vec_index_decreases::<CfgExpr>(*list, i as int);
        }
        let head = eval_cfg(&list[i], features);
        if !head {
            false
        } else {
            eval_all(list, features, i + 1)
        }
    }
}

/// Whether some condition from position `i` on holds.
fn eval_any(list: &Vec<CfgExpr>, features: &Vec<Vec<u8>>, i: usize) -> (r: bool)
    requires
        i <= list@.len(),
    ensures
        r == exists|j: int|
            i <= j < list@.len() && spec_cfg_enabled(#[trigger] list@[j], features_view(features@)),
    decreases *list, list@.len() - i + 1,
{
    if i >= list.len() {
        false
    } else {
        proof {
            vstd::std_specs::vec::axiom_vec_index_decreases::<CfgExpr>(*list, i as int);
        }
        let head = eval_cfg(&list[i], features);
        if head {
            true
        } else {
            eval_any(list, features, i + 1)
        }
    }
}

/// Whether a declaration carrying these `cfg` conditions is excluded
/// under the given feature set: it is disabled as soon as any one
/// condition fails.
pub fn check_is_disabled(conds: &Vec<CfgExpr>, features: &Vec<Vec<u8>>) -> (r: bool)
    ensures
        r == exists|i: int|
            0 <= i < conds@.len() && !spec_cfg_enabled(
                #[trigger] conds@[i],
                features_view(features@),
            ),
{
    let mut i: usize = 0;
    while i < conds.len()
        invariant
            0 <= i <= conds@.len(),
            forall|j: int|
                0 <= j < i ==> spec_cfg_enabled(#[trigger] conds@[j], features_view(features@)),
        decreases conds@.len() - i,
    {
        if !eval_cfg(&conds[i], features) {
            return true;
        }
        i = i + 1;
    }
    false
}

/// Whether a declaration carrying these `cfg` conditions is included
/// under the given feature set.
pub fn check_is_enabled(conds: &Vec<CfgExpr>, features: &Vec<Vec<u8>>) -> (r: bool)
    ensures
        r == forall|i: int|
            0 <= i < conds@.len() ==> spec_cfg_enabled(
                #[trigger] conds@[i],
                features_view(features@),
            ),
{
    !check_is_disabled(conds, features)
}

} // verus!
