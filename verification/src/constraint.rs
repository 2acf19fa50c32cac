//! Package specifications: a crate name with a version constraint, parsed
//! from `NAME[=CONSTRAINT]`. A constraint is either an exact version
//! (`name==1.2.3`), a range expression (`name=^1.2`), or — for a bare name —
//! the wildcard range, which matches every version.

use vstd::prelude::*;
use vstd::string::StrSliceExecFns;
use crate::ranges::{check_range_syntax, range_matches_exec, range_matches, valid_range};
use crate::text::{
    chars_of, find_char, find_first, is_digit, lemma_find_first, lemma_find_first_none,
    lemma_trim_idem, lemma_trim_no_char, string_of, subvec, trim, trim_exec,
};
use crate::version::{
    Version, VersionView, lemma_parse_version_wf, lemma_version_roundtrip, render_version,
    spec_parse_version, version_wf,
};

verus! {

// ---------------------------------------------------------------------------
// Range requirements
// ---------------------------------------------------------------------------

/// The wildcard range text, which matches every version.
pub open spec fn any_text() -> Seq<char> {
    seq!['*']
}

/// A range text is well formed when the range grammar accepts it or it is
/// the wildcard.
pub open spec fn range_wf(t: Seq<char>) -> bool {
    valid_range(t) || t == any_text()
}

/// A version-range requirement, kept as the text it was parsed from.
#[derive(Clone, Debug)]
pub struct RangeText {
    text: String,
}

impl View for RangeText {
    type V = Seq<char>;

    closed spec fn view(&self) -> Seq<char> {
        self.text@
    }
}

impl RangeText {
    /// The wildcard requirement.
    pub fn any() -> (r: RangeText)
        ensures r@ == any_text(), range_wf(r@),
    {
        let text = wildcard_string();
        RangeText { text }
    }

    /// The requirement's text.
    pub fn as_str(&self) -> (r: &str)
        ensures r@ == self@,
    {
        self.text.as_str()
    }

    /// Whether this is the wildcard requirement.
    pub fn is_any(&self) -> (r: bool)
        ensures r == (self@ == any_text()),
    {
        let s = self.text.as_str();
        if s.unicode_len() != 1 {
            proof {
                assert(self@ != any_text());
            }
            return false;
        }
        let c = s.get_char(0);
        proof {
            if c == '*' {
                assert(self@ =~= any_text());
            } else {
                assert(self@ != any_text());
            }
        }
        c == '*'
    }
}

/// A one-character string holding the wildcard.
fn wildcard_string() -> (r: String)
    ensures r@ == any_text(),
{
    let cs = wildcard_chars();
    string_of(&cs)
}

fn wildcard_chars() -> (r: Vec<char>)
    ensures r@ == any_text(),
{
    let mut v: Vec<char> = Vec::new();
    v.push('*');
    proof {
        assert(v@ =~= any_text());
    }
    v
}

// ---------------------------------------------------------------------------
// Version constraints
// ---------------------------------------------------------------------------

/// A version constraint: exactly one version, or a range of versions.
#[derive(Clone, Debug)]
pub enum CrateVersion {
    /// Exact version, as in `==1.0.0`.
    Exact(Version),
    /// Range requirement, as in `=^1.0.0`; the wildcard for a bare name.
    Other(RangeText),
}

/// Mathematical model of a constraint.
pub enum CrateVersionView {
    Exact(VersionView),
    Other(Seq<char>),
}

impl View for CrateVersion {
    type V = CrateVersionView;

    open spec fn view(&self) -> CrateVersionView {
        match self {
            CrateVersion::Exact(v) => CrateVersionView::Exact(v@),
            CrateVersion::Other(t) => CrateVersionView::Other(t@),
        }
    }
}

pub open spec fn constraint_wf(c: CrateVersionView) -> bool {
    match c {
        CrateVersionView::Exact(v) => version_wf(v),
        CrateVersionView::Other(t) => range_wf(t),
    }
}

/// Which versions a constraint admits. An exact constraint admits only the
/// structurally equal version, build metadata included; the wildcard admits
/// every version; other ranges follow the range grammar's semantics.
pub open spec fn constraint_matches(c: CrateVersionView, v: VersionView) -> bool {
    match c {
        CrateVersionView::Exact(e) => v == e,
        CrateVersionView::Other(t) =>
            if t == any_text() { true } else { range_matches(t, render_version(v)) },
    }
}

/// The constraint made for a bare name admits every version.
pub proof fn lemma_any_matches_all(v: VersionView)
    ensures constraint_matches(CrateVersionView::Other(any_text()), v),
{
}

/// An exact constraint admits precisely its own version and no other,
/// build metadata included.
pub proof fn lemma_exact_matches_only(e: VersionView, v: VersionView)
    ensures constraint_matches(CrateVersionView::Exact(e), v) <==> v == e,
{
}

impl CrateVersion {
    /// Whether the constraint admits `v`.
    pub fn matches(&self, v: &Version) -> (r: bool)
        ensures r == constraint_matches(self@, v@),
    {
        match self {
            CrateVersion::Exact(e) => v.same_version(e),
            CrateVersion::Other(t) => {
                if t.is_any() {
                    true
                } else {
                    let vs = v.version_string();
                    range_matches_exec(t.as_str(), vs.as_str())
                }
            }
        }
    }

    /// The constraint's text, as a specification would write it.
    pub fn requirement_string(&self) -> (r: String)
        ensures r@ == render_constraint(self@),
    {
        match self {
            CrateVersion::Exact(v) => {
                let mut out: Vec<char> = Vec::new();
                out.push('=');
                let vcs = v.render_chars();
                crate::version::extend_chars(&mut out, &vcs);
                proof {
                    assert(out@ =~= render_constraint(self@));
                }
                string_of(&out)
            }
            CrateVersion::Other(t) => {
                let cs = chars_of(t.as_str());
                string_of(&cs)
            }
        }
    }

    /// Parse a constraint: a leading `=` denotes an exact version, anything
    /// else a range expression.
    pub fn from_str(s: &str) -> (r: Result<CrateVersion, CrateVersionError>)
        ensures
            r matches Ok(c) ==> constraint_wf(c@),
            spec_constraint_outcome(s@, r),
    {
        let cs = chars_of(s);
        CrateVersion::from_chars(&cs)
    }

    /// Parse a constraint from characters.
    pub fn from_chars(vt: &Vec<char>) -> (r: Result<CrateVersion, CrateVersionError>)
        ensures
            r matches Ok(c) ==> constraint_wf(c@),
            spec_constraint_outcome(vt@, r),
    {
        let n = vt.len();
        if n > 0 && vt[0] == '=' {
            let ver_cs = subvec(vt, 1, n);
            proof {
                assert(ver_cs@ == vt@.subrange(1, vt@.len() as int));
            }
            match Version::parse_chars(&ver_cs) {
                Some(v) => {
                    proof {
                        lemma_parse_version_wf(ver_cs@);
                    }
                    Ok(CrateVersion::Exact(v))
                }
                None => Err(CrateVersionError::Syntax(string_of(&ver_cs))),
            }
        } else {
            let s = string_of(vt);
            match check_range_syntax(s.as_str()) {
                Ok(_) => Ok(CrateVersion::Other(RangeText { text: s })),
                Err(msg) => Err(CrateVersionError::Semantics(msg)),
            }
        }
    }
}

/// What `CrateVersion::from_chars` returns for a constraint text.
pub open spec fn spec_constraint_outcome(
    cs: Seq<char>,
    r: Result<CrateVersion, CrateVersionError>,
) -> bool {
    if cs.len() > 0 && cs[0] == '=' {
        let ver = cs.subrange(1, cs.len() as int);
        match spec_parse_version(ver) {
            Some(v) => r matches Ok(c) && c@ == CrateVersionView::Exact(v),
            None => r matches Err(e) && e matches CrateVersionError::Syntax(t) && t@ == ver,
        }
    } else {
        &&& (r is Ok <==> valid_range(cs))
        &&& (r matches Ok(c) ==> c@ == CrateVersionView::Other(cs))
        &&& (r matches Err(e) ==> e is Semantics)
    }
}

// ---------------------------------------------------------------------------
// Errors
// ---------------------------------------------------------------------------

/// Error parsing the version constraint of a crate specification.
#[derive(Clone, Debug)]
pub enum CrateVersionError {
    /// Malformed exact version (`InvalidVersionSyntax`), carrying its text.
    Syntax(String),
    /// Malformed range expression (`InvalidVersionRange`), carrying the
    /// range parser's message.
    Semantics(String),
}

/// Error parsing a crate specification.
#[derive(Clone, Debug)]
pub enum CrateError {
    /// Invalid crate name (`InvalidName`), carrying the offending name.
    Name(String),
    /// Invalid version constraint.
    Version(CrateVersionError),
}

impl From<CrateVersionError> for CrateError {
    fn from(input: CrateVersionError) -> (r: Self)
        ensures r == CrateError::Version(input),
    {
        CrateError::Version(input)
    }
}

impl vstd::std_specs::convert::FromSpecImpl<CrateVersionError> for CrateError {
    open spec fn obeys_from_spec() -> bool {
        true
    }

    open spec fn from_spec(input: CrateVersionError) -> Self {
        CrateError::Version(input)
    }
}

// ---------------------------------------------------------------------------
// Crate specifications
// ---------------------------------------------------------------------------

/// Characters allowed in a bare crate name.
pub open spec fn is_name_char(c: char) -> bool {
    is_digit(c)
    || (97 <= c as u32 && c as u32 <= 122)  // a-z
    || (65 <= c as u32 && c as u32 <= 90)  // A-Z
    || c == '-'
    || c == '_'
}

/// A valid bare crate name: nonempty, name characters only.
pub open spec fn valid_name(s: Seq<char>) -> bool {
    s.len() > 0 && forall|j: int| 0 <= j < s.len() ==> is_name_char(#[trigger] s[j])
}

fn valid_name_exec(v: &Vec<char>) -> (r: bool)
    ensures r == valid_name(v@),
{
    if v.len() == 0 {
        return false;
    }
    let mut i: usize = 0;
    while i < v.len()
        invariant
            i <= v@.len(),
            forall|j: int| 0 <= j < i ==> is_name_char(#[trigger] v@[j]),
        decreases v@.len() - i,
    {
        let c = v[i];
        let u = c as u32;
        let ok = (48 <= u && u <= 57) || (97 <= u && u <= 122) || (65 <= u && u <= 90)
            || c == '-' || c == '_';
        if !ok {
            return false;
        }
        i = i + 1;
    }
    true
}

/// Specification of a crate to download: its name and version constraint.
#[derive(Clone, Debug)]
pub struct Crate {
    name: String,
    version: CrateVersion,
}

/// Mathematical model of a crate specification.
#[verifier::ext_equal]
pub struct CrateView {
    pub name: Seq<char>,
    pub version: CrateVersionView,
}

impl View for Crate {
    type V = CrateView;

    closed spec fn view(&self) -> CrateView {
        CrateView { name: self.name@, version: self.version@ }
    }
}

/// Well-formedness: the constraint is well formed, and the name is trimmed
/// and free of `=` (the separator the parser splits on).
pub open spec fn crate_wf(c: CrateView) -> bool {
    constraint_wf(c.version)
    && find_first(c.name, '=') is None
    && trim(c.name) == c.name
}

/// The crate specification denoted by `s`, if any: split at the first `=`,
/// trim both sides, validate. A bare name gets the wildcard constraint.
pub open spec fn spec_parse_crate(s: Seq<char>) -> Option<CrateView> {
    match find_first(s, '=') {
        None => {
            let name = trim(s);
            if valid_name(name) {
                Some(CrateView { name, version: CrateVersionView::Other(any_text()) })
            } else {
                None
            }
        }
        Some(i) => {
            let name = trim(s.subrange(0, i));
            let vt = trim(s.subrange(i + 1, s.len() as int));
            if vt.len() > 0 && vt[0] == '=' {
                match spec_parse_version(vt.subrange(1, vt.len() as int)) {
                    Some(v) => Some(CrateView { name, version: CrateVersionView::Exact(v) }),
                    None => None,
                }
            } else {
                if valid_range(vt) {
                    Some(CrateView { name, version: CrateVersionView::Other(vt) })
                } else {
                    None
                }
            }
        }
    }
}

impl Crate {
    /// Parse a crate specification `NAME[=CONSTRAINT]`.
    pub fn from_str(s: &str) -> (r: Result<Crate, CrateError>)
        ensures
            r matches Ok(c) ==> spec_parse_crate(s@) == Some(c@) && crate_wf(c@),
            r is Err <==> spec_parse_crate(s@) is None,
            r matches Err(e) ==> spec_crate_error(s@, e),
    {
        let cs = chars_of(s);
        match find_char(&cs, '=') {
            None => {
                proof {
                    lemma_find_first(cs@, '=');
                }
                let name_cs = trim_exec(&cs);
                proof {
                    lemma_trim_no_char(cs@, '=');
                    lemma_find_first_none(name_cs@, '=');
                    lemma_trim_idem(cs@);
                }
                if valid_name_exec(&name_cs) {
                    Ok(Crate { name: string_of(&name_cs), version: CrateVersion::Other(RangeText::any()) })
                } else {
                    Err(CrateError::Name(string_of(&name_cs)))
                }
            }
            Some(i) => {
                proof {
                    lemma_find_first(cs@, '=');
                }
                let head = subvec(&cs, 0, i);
                let tail = subvec(&cs, i + 1, cs.len());
                let name_cs = trim_exec(&head);
                let vt = trim_exec(&tail);
                proof {
                    lemma_trim_no_char(head@, '=');
                    lemma_find_first_none(name_cs@, '=');
                    lemma_trim_idem(head@);
                }
                match CrateVersion::from_chars(&vt) {
                    Ok(version) => Ok(Crate { name: string_of(&name_cs), version }),
                    Err(e) => Err(CrateError::Version(e)),
                }
            }
        }
    }

    /// The crate's name.
    pub fn name(&self) -> (r: &str)
        ensures r@ == self@.name,
    {
        self.name.as_str()
    }

    /// The exact version, when the constraint is exact.
    pub fn exact_version(&self) -> (r: Option<&Version>)
        ensures
            match r {
                Some(v) => self@.version == CrateVersionView::Exact(v@),
                None => !(self@.version is Exact),
            },
    {
        match &self.version {
            CrateVersion::Exact(v) => Some(v),
            _ => None,
        }
    }

    /// The version requirement the constraint imposes.
    pub fn version_requirement(&self) -> (r: &CrateVersion)
        ensures r@ == self@.version,
    {
        &self.version
    }

    /// The canonical text `NAME=CONSTRAINT` of this specification.
    pub fn display_string(&self) -> (r: String)
        ensures r@ == render_crate(self@),
    {
        let mut out = chars_of(self.name.as_str());
        out.push('=');
        match &self.version {
            CrateVersion::Exact(v) => {
                out.push('=');
                let vcs = v.render_chars();
                crate::version::extend_chars(&mut out, &vcs);
                proof {
                    assert(out@ =~= render_crate(self@));
                }
            }
            CrateVersion::Other(t) => {
                let tcs = chars_of(t.as_str());
                crate::version::extend_chars(&mut out, &tcs);
                proof {
                    assert(out@ =~= render_crate(self@));
                }
            }
        }
        string_of(&out)
    }
}

/// Which error `Crate::from_str` reports on which input.
pub open spec fn spec_crate_error(s: Seq<char>, e: CrateError) -> bool {
    match find_first(s, '=') {
        None => e matches CrateError::Name(n) && n@ == trim(s),
        Some(i) => {
            let vt = trim(s.subrange(i + 1, s.len() as int));
            e matches CrateError::Version(ve)
            && if vt.len() > 0 && vt[0] == '=' {
                ve matches CrateVersionError::Syntax(t) && t@ == vt.subrange(1, vt.len() as int)
            } else {
                ve is Semantics
            }
        }
    }
}

// ---------------------------------------------------------------------------
// Rendering a specification
// ---------------------------------------------------------------------------

pub open spec fn render_constraint(c: CrateVersionView) -> Seq<char> {
    match c {
        CrateVersionView::Exact(v) => seq!['='] + render_version(v),
        CrateVersionView::Other(t) => t,
    }
}

/// The canonical text of a crate specification: `NAME=CONSTRAINT`.
pub open spec fn render_crate(c: CrateView) -> Seq<char> {
    c.name + seq!['='] + render_constraint(c.version)
}

/// Round trip: rendering a well-formed specification with an exact
/// constraint and parsing the result restores the specification.
pub proof fn lemma_display_roundtrip(c: CrateView)
    requires
        crate_wf(c),
        c.version is Exact,
    ensures spec_parse_crate(render_crate(c)) == Some(c),
{
    let v = c.version->Exact_0;
    let rv = render_version(v);
    let full = render_crate(c);
    crate::version::lemma_render_version_chars(v);
    lemma_find_first(c.name, '=');
    assert(full[c.name.len() as int] == '=');
    assert(forall|j: int| 0 <= j < c.name.len() ==> full[j] == c.name[j] && full[j] != '=');
    crate::text::lemma_find_first_at(full, '=', c.name.len() as int);
    assert(full.subrange(0, c.name.len() as int) =~= c.name);
    let vt_raw = full.subrange(c.name.len() as int + 1, full.len() as int);
    assert(vt_raw =~= seq!['='] + rv);
    assert(vt_raw.len() > 0 && vt_raw[0] == '=');
    assert(!crate::text::is_space(vt_raw[0]));
    assert(vt_raw.last() == rv.last());
    assert(!crate::text::is_space(vt_raw.last()));
    crate::text::lemma_trim_noop(vt_raw);
    assert(vt_raw.subrange(1, vt_raw.len() as int) =~= rv);
    lemma_version_roundtrip(v);
    assert(spec_parse_crate(full) matches Some(w) && w =~= c);
}

} // verus!
