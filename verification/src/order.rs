//! Semantic-version precedence: major, minor and patch compare numerically;
//! a version with a pre-release precedes the same version without one;
//! pre-release identifiers compare pairwise, numeric before alphanumeric,
//! numeric ones numerically and alphanumeric ones lexically; a shorter
//! identifier list precedes one it is a prefix of. Build metadata is ignored.

use vstd::prelude::*;
use crate::version::{IdView, Identifier, Version, VersionView, id_views};

verus! {

// ---------------------------------------------------------------------------
// Specification
// ---------------------------------------------------------------------------

/// Strict lexicographic order on character sequences, by scalar value.
pub open spec fn chars_lt(a: Seq<char>, b: Seq<char>) -> bool
    decreases a.len(),
{
    if b.len() == 0 {
        false
    } else if a.len() == 0 {
        true
    } else if a[0] != b[0] {
        (a[0] as u32) < (b[0] as u32)
    } else {
        chars_lt(a.drop_first(), b.drop_first())
    }
}

/// Strict order on single identifiers.
pub open spec fn id_lt(x: IdView, y: IdView) -> bool {
    match (x, y) {
        (IdView::Numeric(m), IdView::Numeric(n)) => m < n,
        (IdView::Numeric(_), IdView::Alpha(_)) => true,
        (IdView::Alpha(_), IdView::Numeric(_)) => false,
        (IdView::Alpha(a), IdView::Alpha(b)) => chars_lt(a, b),
    }
}

/// Non-strict lexicographic order on identifier lists.
pub open spec fn ids_le(x: Seq<IdView>, y: Seq<IdView>) -> bool
    decreases x.len(),
{
    if x.len() == 0 {
        true
    } else if y.len() == 0 {
        false
    } else if x[0] == y[0] {
        ids_le(x.drop_first(), y.drop_first())
    } else {
        id_lt(x[0], y[0])
    }
}

/// Non-strict order on pre-release lists: an empty list (a release) comes
/// after every nonempty list (a pre-release).
pub open spec fn pre_le(x: Seq<IdView>, y: Seq<IdView>) -> bool {
    if x.len() == 0 {
        y.len() == 0
    } else if y.len() == 0 {
        true
    } else {
        ids_le(x, y)
    }
}

/// Non-strict precedence order on versions.
pub open spec fn prec_le(a: VersionView, b: VersionView) -> bool {
    if a.major != b.major {
        a.major < b.major
    } else if a.minor != b.minor {
        a.minor < b.minor
    } else if a.patch != b.patch {
        a.patch < b.patch
    } else {
        pre_le(a.pre, b.pre)
    }
}

// ---------------------------------------------------------------------------
// Order laws
// ---------------------------------------------------------------------------

proof fn lemma_chars_lt_asym(a: Seq<char>, b: Seq<char>)
    ensures !(chars_lt(a, b) && chars_lt(b, a)),
    decreases a.len(),
{
    if a.len() > 0 && b.len() > 0 && a[0] == b[0] {
        lemma_chars_lt_asym(a.drop_first(), b.drop_first());
    }
}

proof fn lemma_chars_lt_total(a: Seq<char>, b: Seq<char>)
    ensures chars_lt(a, b) || chars_lt(b, a) || a == b,
    decreases a.len(),
{
    if a.len() == 0 && b.len() == 0 {
        assert(a =~= b);
    } else if a.len() > 0 && b.len() > 0 {
        if a[0] == b[0] {
            let ad = a.drop_first();
            let bd = b.drop_first();
            lemma_chars_lt_total(ad, bd);
            if !chars_lt(a, b) && !chars_lt(b, a) {
                assert(ad == bd);
                assert forall|j: int| 0 <= j < a.len() implies a[j] == b[j] by {
                    if j > 0 {
                        assert(a[j] == ad[j - 1]);
                        assert(b[j] == bd[j - 1]);
                    }
                }
                assert(a =~= b);
            }
        } else {
            // distinct characters have distinct scalar values
            if (a[0] as u32) == (b[0] as u32) {
                vstd::utf8::char_u32_cast(a[0], a[0] as u32);
                vstd::utf8::char_u32_cast(b[0], b[0] as u32);
                assert(false);
            }
        }
    }
}

proof fn lemma_chars_lt_trans(a: Seq<char>, b: Seq<char>, c: Seq<char>)
    requires chars_lt(a, b), chars_lt(b, c),
    ensures chars_lt(a, c),
    decreases a.len() + b.len() + c.len(),
{
    if a.len() > 0 && b.len() > 0 && c.len() > 0 {
        if a[0] == b[0] && b[0] == c[0] {
            lemma_chars_lt_trans(a.drop_first(), b.drop_first(), c.drop_first());
        }
    }
}

proof fn lemma_id_lt_asym(x: IdView, y: IdView)
    ensures !(id_lt(x, y) && id_lt(y, x)),
{
    match (x, y) {
        (IdView::Alpha(a), IdView::Alpha(b)) => lemma_chars_lt_asym(a, b),
        _ => {}
    }
}

proof fn lemma_id_lt_total(x: IdView, y: IdView)
    ensures id_lt(x, y) || id_lt(y, x) || x == y,
{
    match (x, y) {
        (IdView::Alpha(a), IdView::Alpha(b)) => lemma_chars_lt_total(a, b),
        _ => {}
    }
}

proof fn lemma_id_lt_trans(x: IdView, y: IdView, z: IdView)
    requires id_lt(x, y), id_lt(y, z),
    ensures id_lt(x, z),
{
    match (x, y, z) {
        (IdView::Alpha(a), IdView::Alpha(b), IdView::Alpha(c)) => lemma_chars_lt_trans(a, b, c),
        _ => {}
    }
}

proof fn lemma_ids_le_total(x: Seq<IdView>, y: Seq<IdView>)
    ensures ids_le(x, y) || ids_le(y, x),
    decreases x.len(),
{
    if x.len() > 0 && y.len() > 0 {
        if x[0] == y[0] {
            lemma_ids_le_total(x.drop_first(), y.drop_first());
        } else {
            lemma_id_lt_total(x[0], y[0]);
        }
    }
}

proof fn lemma_ids_le_trans(x: Seq<IdView>, y: Seq<IdView>, z: Seq<IdView>)
    requires ids_le(x, y), ids_le(y, z),
    ensures ids_le(x, z),
    decreases x.len() + y.len() + z.len(),
{
    if x.len() == 0 {
    } else {
        // y and z are nonempty since ids_le(x, y) and ids_le(y, z) hold
        if x[0] == y[0] && y[0] == z[0] {
            lemma_ids_le_trans(x.drop_first(), y.drop_first(), z.drop_first());
        } else if x[0] == y[0] {
            // id_lt(y[0], z[0]) and x[0] == y[0]
            assert(id_lt(x[0], z[0]));
        } else if y[0] == z[0] {
            assert(id_lt(x[0], z[0]));
        } else {
            lemma_id_lt_trans(x[0], y[0], z[0]);
            if x[0] == z[0] {
                lemma_id_lt_asym(x[0], y[0]);
                assert(false);
            }
        }
    }
}

/// Totality: any two versions are ordered.
pub proof fn lemma_prec_le_total(a: VersionView, b: VersionView)
    ensures prec_le(a, b) || prec_le(b, a),
{
    if a.major == b.major && a.minor == b.minor && a.patch == b.patch {
        if a.pre.len() > 0 && b.pre.len() > 0 {
            lemma_ids_le_total(a.pre, b.pre);
        }
    }
}

/// Transitivity of precedence.
pub proof fn lemma_prec_le_trans(a: VersionView, b: VersionView, c: VersionView)
    requires prec_le(a, b), prec_le(b, c),
    ensures prec_le(a, c),
{
    if a.major == b.major && b.major == c.major
        && a.minor == b.minor && b.minor == c.minor
        && a.patch == b.patch && b.patch == c.patch {
        if a.pre.len() > 0 && b.pre.len() > 0 && c.pre.len() > 0 {
            lemma_ids_le_trans(a.pre, b.pre, c.pre);
        }
    }
}

// ---------------------------------------------------------------------------
// Executable comparison
// ---------------------------------------------------------------------------

fn chars_lt_from(a: &Vec<char>, b: &Vec<char>, k: usize) -> (r: bool)
    requires k <= a@.len(), k <= b@.len(),
    ensures r == chars_lt(a@.skip(k as int), b@.skip(k as int)),
    decreases a@.len() - k,
{
    proof {
        if k < a@.len() && k < b@.len() {
            assert(a@.skip(k as int)[0] == a@[k as int]);
            assert(b@.skip(k as int)[0] == b@[k as int]);
            assert(a@.skip(k as int).drop_first() =~= a@.skip(k + 1 as int));
            assert(b@.skip(k as int).drop_first() =~= b@.skip(k + 1 as int));
        }
    }
    if k == b.len() {
        false
    } else if k == a.len() {
        true
    } else if a[k] != b[k] {
        (a[k] as u32) < (b[k] as u32)
    } else {
        chars_lt_from(a, b, k + 1)
    }
}

/// Character-sequence equality.
pub fn chars_eq(a: &Vec<char>, b: &Vec<char>) -> (r: bool)
    ensures r == (a@ == b@),
{
    if a.len() != b.len() {
        return false;
    }
    let mut i: usize = 0;
    while i < a.len()
        invariant
            i <= a@.len(),
            a@.len() == b@.len(),
            forall|j: int| 0 <= j < i ==> a@[j] == b@[j],
        decreases a@.len() - i,
    {
        if a[i] != b[i] {
            return false;
        }
        i = i + 1;
    }
    proof {
        assert(a@ =~= b@);
    }
    true
}

/// Identifier equality, matching equality of the models.
pub fn id_eq(x: &Identifier, y: &Identifier) -> (r: bool)
    ensures r == (x@ == y@),
{
    match (x, y) {
        (Identifier::Numeric(m), Identifier::Numeric(n)) => m == n,
        (Identifier::Alpha(a), Identifier::Alpha(b)) => chars_eq(a, b),
        _ => false,
    }
}

fn id_lt_exec(x: &Identifier, y: &Identifier) -> (r: bool)
    ensures r == id_lt(x@, y@),
{
    match (x, y) {
        (Identifier::Numeric(m), Identifier::Numeric(n)) => m < n,
        (Identifier::Numeric(_), Identifier::Alpha(_)) => true,
        (Identifier::Alpha(_), Identifier::Numeric(_)) => false,
        (Identifier::Alpha(a), Identifier::Alpha(b)) => {
            proof {
                assert(a@.skip(0) =~= a@);
                assert(b@.skip(0) =~= b@);
            }
            chars_lt_from(a, b, 0)
        }
    }
}

fn ids_le_from(x: &Vec<Identifier>, y: &Vec<Identifier>, k: usize) -> (r: bool)
    requires k <= x@.len(), k <= y@.len(),
    ensures r == ids_le(id_views(x@).skip(k as int), id_views(y@).skip(k as int)),
    decreases x@.len() - k,
{
    proof {
        assert(id_views(x@).len() == x@.len());
        assert(id_views(y@).len() == y@.len());
        if k < x@.len() && k < y@.len() {
            assert(id_views(x@).skip(k as int)[0] == id_views(x@)[k as int]);
            assert(id_views(y@).skip(k as int)[0] == id_views(y@)[k as int]);
            assert(id_views(x@)[k as int] == x@[k as int]@);
            assert(id_views(y@)[k as int] == y@[k as int]@);
            assert(id_views(x@).skip(k as int).drop_first() =~= id_views(x@).skip(k + 1 as int));
            assert(id_views(y@).skip(k as int).drop_first() =~= id_views(y@).skip(k + 1 as int));
        }
    }
    if k == x.len() {
        true
    } else if k == y.len() {
        false
    } else if id_eq(&x[k], &y[k]) {
        ids_le_from(x, y, k + 1)
    } else {
        id_lt_exec(&x[k], &y[k])
    }
}

impl Version {
    /// Whether `self` precedes or equals `other` in precedence order.
    pub fn precedes_or_equals(&self, other: &Version) -> (r: bool)
        ensures r == prec_le(self@, other@),
    {
        if self.major != other.major {
            return self.major < other.major;
        }
        if self.minor != other.minor {
            return self.minor < other.minor;
        }
        if self.patch != other.patch {
            return self.patch < other.patch;
        }
        proof {
            assert(id_views(self.pre@).len() == self.pre@.len());
            assert(id_views(other.pre@).len() == other.pre@.len());
        }
        if self.pre.len() == 0 {
            return other.pre.len() == 0;
        }
        if other.pre.len() == 0 {
            return true;
        }
        proof {
            assert(id_views(self.pre@).skip(0) =~= id_views(self.pre@));
            assert(id_views(other.pre@).skip(0) =~= id_views(other.pre@));
        }
        ids_le_from(&self.pre, &other.pre, 0)
    }

    /// Structural equality of versions, including build metadata.
    pub fn same_version(&self, other: &Version) -> (r: bool)
        ensures r == (self@ == other@),
    {
        let fields_eq = self.major == other.major && self.minor == other.minor
            && self.patch == other.patch;
        if !fields_eq {
            proof {
                assert(self@.major == self.major);
            }
            return false;
        }
        if !ids_eq(&self.pre, &other.pre) {
            return false;
        }
        if !ids_eq(&self.build, &other.build) {
            return false;
        }
        proof {
            assert(self@ =~= other@);
        }
        true
    }
}

/// Identifier-list equality, matching equality of the models.
pub fn ids_eq(x: &Vec<Identifier>, y: &Vec<Identifier>) -> (r: bool)
    ensures r == (id_views(x@) == id_views(y@)),
{
    proof {
        assert(id_views(x@).len() == x@.len());
        assert(id_views(y@).len() == y@.len());
    }
    if x.len() != y.len() {
        return false;
    }
    let mut i: usize = 0;
    while i < x.len()
        invariant
            i <= x@.len(),
            x@.len() == y@.len(),
            forall|j: int| 0 <= j < i ==> id_views(x@)[j] == id_views(y@)[j],
        decreases x@.len() - i,
    {
        proof {
            assert(id_views(x@)[i as int] == x@[i as int]@);
            assert(id_views(y@)[i as int] == y@[i as int]@);
        }
        if !id_eq(&x[i], &y[i]) {
            return false;
        }
        i = i + 1;
    }
    proof {
        assert(id_views(x@) =~= id_views(y@));
    }
    true
}

} // verus!
