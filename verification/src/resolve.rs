//! The version resolver: given the listed versions and a constraint, select
//! the newest matching version under semantic-version precedence, taking the
//! earliest listed among versions of equal precedence (the stable order a
//! descending sort followed by a first-match scan would give).

use vstd::prelude::*;
use crate::constraint::{CrateVersion, CrateVersionView, constraint_matches, render_constraint};
use crate::order::{lemma_prec_le_total, lemma_prec_le_trans, prec_le};
use crate::registry::DownloadError;
use crate::version::{Version, VersionView, version_views};

verus! {

/// Some listed version satisfies the constraint.
pub open spec fn some_match(vs: Seq<VersionView>, c: CrateVersionView) -> bool {
    exists|j: int| 0 <= j < vs.len() && #[trigger] constraint_matches(c, vs[j])
}

/// `vs[i]` is the resolved version: it matches, no matching version exceeds
/// it in precedence, and no earlier matching version ties with it.
pub open spec fn is_resolved(vs: Seq<VersionView>, c: CrateVersionView, i: int) -> bool {
    &&& 0 <= i < vs.len()
    &&& constraint_matches(c, vs[i])
    &&& forall|j: int| 0 <= j < vs.len() && #[trigger] constraint_matches(c, vs[j])
        ==> prec_le(vs[j], vs[i])
    &&& forall|j: int| 0 <= j < i && #[trigger] constraint_matches(c, vs[j])
        ==> !prec_le(vs[i], vs[j])
}

/// Select the version to fetch. `Ok` exactly when some listed version
/// matches; otherwise `NoMatchingVersion` reports the requirement and how
/// many versions were considered.
pub fn resolve_version(versions: &Vec<Version>, constraint: &CrateVersion)
    -> (r: Result<Version, DownloadError>)
    ensures
        r is Ok <==> some_match(version_views(versions@), constraint@),
        r matches Ok(v) ==> exists|i: int|
            #[trigger] is_resolved(version_views(versions@), constraint@, i)
            && version_views(versions@)[i] == v@,
        r matches Err(e) ==> e matches DownloadError::NoMatchingVersion {
            requirement: t,
            considered: n,
        } && t@ == render_constraint(constraint@) && n == versions@.len(),
{
    let ghost vs = version_views(versions@);
    proof {
        assert(vs.len() == versions@.len());
        assert(forall|j: int| 0 <= j < versions@.len()
            ==> vs[j] == (#[trigger] versions@[j])@);
    }
    let n = versions.len();
    let mut best: Option<usize> = None;
    let mut i: usize = 0;
    while i < n
        invariant
            i <= n,
            n == versions@.len(),
            vs == version_views(versions@),
            vs.len() == n,
            forall|j: int| 0 <= j < n ==> vs[j] == (#[trigger] versions@[j])@,
            match best {
                None => forall|j: int| 0 <= j < i ==> !(#[trigger] constraint_matches(constraint@, vs[j])),
                Some(b) => b < i
                    && constraint_matches(constraint@, vs[b as int])
                    && (forall|j: int| 0 <= j < i && #[trigger] constraint_matches(constraint@, vs[j])
                        ==> prec_le(vs[j], vs[b as int]))
                    && (forall|j: int| 0 <= j < b && #[trigger] constraint_matches(constraint@, vs[j])
                        ==> !prec_le(vs[b as int], vs[j])),
            },
        decreases n - i,
    {
        let candidate = &versions[i];
        if constraint.matches(candidate) {
            match best {
                None => {
                    proof {
                        lemma_prec_le_total(vs[i as int], vs[i as int]);
                    }
                    best = Some(i);
                }
                Some(b) => {
                    if !candidate.precedes_or_equals(&versions[b]) {
                        proof {
                            lemma_prec_le_total(vs[i as int], vs[b as int]);
                            // the old best and everything below it stays below
                            assert forall|j: int|
                                0 <= j < i + 1 && #[trigger] constraint_matches(constraint@, vs[j])
                                implies prec_le(vs[j], vs[i as int]) by {
                                if j < i {
                                    lemma_prec_le_trans(vs[j], vs[b as int], vs[i as int]);
                                } else {
                                    lemma_prec_le_total(vs[i as int], vs[i as int]);
                                }
                            }
                            assert forall|j: int|
                                0 <= j < i && #[trigger] constraint_matches(constraint@, vs[j])
                                implies !prec_le(vs[i as int], vs[j]) by {
                                if prec_le(vs[i as int], vs[j]) {
                                    lemma_prec_le_trans(vs[i as int], vs[j], vs[b as int]);
                                    assert(false);
                                }
                            }
                        }
                        best = Some(i);
                    }
                }
            }
        }
        i = i + 1;
    }
    match best {
        Some(b) => {
            let chosen = versions[b].duplicate();
            proof {
                assert(is_resolved(vs, constraint@, b as int));
                assert(constraint_matches(constraint@, vs[b as int]));
            }
            Ok(chosen)
        }
        None => {
            Err(DownloadError::NoMatchingVersion {
                requirement: constraint.requirement_string(),
                considered: n,
            })
        }
    }
}

} // verus!
