//! Semantic versions: `major.minor.patch[-prerelease][+build]`, with
//! pre-release and build identifiers, a canonical rendering, a parser, and
//! the proof that rendering and parsing are mutually inverse.

use vstd::prelude::*;
use crate::text::{
    chars_of, is_digit, is_digit_exec, join, lemma_find_first_at, lemma_find_first_none,
    lemma_join_push, lemma_render_u64_parses, lemma_split_all_len, lemma_split_join, parse_u64,
    parse_u64_exec, render_u64, render_u64_exec, split_all, split_all_exec, split_head,
    split_head_exec, string_of, subvec,
};

verus! {

// ---------------------------------------------------------------------------
// Data model
// ---------------------------------------------------------------------------

/// One dot-separated pre-release or build identifier.
#[derive(Clone, Debug, PartialEq, Eq)]
pub enum Identifier {
    /// All digits, compared numerically, rendered without leading zeros.
    Numeric(u64),
    /// Contains at least one non-digit, compared lexically.
    Alpha(Vec<char>),
}

/// Mathematical model of an identifier.
pub enum IdView {
    Numeric(u64),
    Alpha(Seq<char>),
}

impl View for Identifier {
    type V = IdView;

    open spec fn view(&self) -> IdView {
        match self {
            Identifier::Numeric(n) => IdView::Numeric(*n),
            Identifier::Alpha(s) => IdView::Alpha(s@),
        }
    }
}

/// A semantic version.
#[derive(Clone, Debug, PartialEq, Eq)]
pub struct Version {
    pub major: u64,
    pub minor: u64,
    pub patch: u64,
    pub pre: Vec<Identifier>,
    pub build: Vec<Identifier>,
}

/// Mathematical model of a version.
#[verifier::ext_equal]
pub struct VersionView {
    pub major: u64,
    pub minor: u64,
    pub patch: u64,
    pub pre: Seq<IdView>,
    pub build: Seq<IdView>,
}

pub open spec fn id_views(ids: Seq<Identifier>) -> Seq<IdView> {
    ids.map_values(|i: Identifier| i@)
}

/// The models of a sequence of versions.
pub open spec fn version_views(s: Seq<Version>) -> Seq<VersionView> {
    s.map_values(|v: Version| v@)
}

impl View for Version {
    type V = VersionView;

    open spec fn view(&self) -> VersionView {
        VersionView {
            major: self.major,
            minor: self.minor,
            patch: self.patch,
            pre: id_views(self.pre@),
            build: id_views(self.build@),
        }
    }
}

// ---------------------------------------------------------------------------
// Validity
// ---------------------------------------------------------------------------

/// Characters allowed in alphanumeric identifiers.
pub open spec fn is_id_char(c: char) -> bool {
    is_digit(c)
    || (97 <= c as u32 && c as u32 <= 122)  // a-z
    || (65 <= c as u32 && c as u32 <= 90)  // A-Z
    || c == '-'
}

pub open spec fn all_digits(s: Seq<char>) -> bool {
    forall|j: int| 0 <= j < s.len() ==> is_digit(#[trigger] s[j])
}

/// A valid alphanumeric identifier: nonempty, identifier characters only,
/// at least one non-digit.
pub open spec fn valid_alpha_id(s: Seq<char>) -> bool {
    s.len() > 0
    && (forall|j: int| 0 <= j < s.len() ==> is_id_char(#[trigger] s[j]))
    && !all_digits(s)
}

pub open spec fn id_wf(i: IdView) -> bool {
    match i {
        IdView::Numeric(_) => true,
        IdView::Alpha(s) => valid_alpha_id(s),
    }
}

pub open spec fn ids_wf(ids: Seq<IdView>) -> bool {
    forall|k: int| 0 <= k < ids.len() ==> id_wf(#[trigger] ids[k])
}

/// A well-formed version model: every identifier is well formed.
pub open spec fn version_wf(v: VersionView) -> bool {
    ids_wf(v.pre) && ids_wf(v.build)
}

// ---------------------------------------------------------------------------
// Rendering
// ---------------------------------------------------------------------------

pub open spec fn render_id(i: IdView) -> Seq<char> {
    match i {
        IdView::Numeric(n) => render_u64(n as nat),
        IdView::Alpha(s) => s,
    }
}

pub open spec fn render_ids(ids: Seq<IdView>) -> Seq<char> {
    join(ids.map_values(|i: IdView| render_id(i)), '.')
}

/// The canonical text of a version.
pub open spec fn render_version(v: VersionView) -> Seq<char> {
    let core = render_u64(v.major as nat) + seq!['.'] + render_u64(v.minor as nat)
        + seq!['.'] + render_u64(v.patch as nat);
    let with_pre = if v.pre.len() == 0 { core } else { core + seq!['-'] + render_ids(v.pre) };
    if v.build.len() == 0 { with_pre } else { with_pre + seq!['+'] + render_ids(v.build) }
}

// ---------------------------------------------------------------------------
// Parsing (specification)
// ---------------------------------------------------------------------------

pub open spec fn parse_id(s: Seq<char>) -> Option<IdView> {
    if s.len() == 0 {
        None
    } else if all_digits(s) {
        match parse_u64(s) {
            Some(n) => Some(IdView::Numeric(n)),
            None => None,
        }
    } else if forall|j: int| 0 <= j < s.len() ==> is_id_char(#[trigger] s[j]) {
        Some(IdView::Alpha(s))
    } else {
        None
    }
}

pub open spec fn parse_ids(parts: Seq<Seq<char>>) -> Option<Seq<IdView>>
    decreases parts.len(),
{
    if parts.len() == 0 {
        Some(Seq::<IdView>::empty())
    } else {
        match (parse_ids(parts.drop_last()), parse_id(parts.last())) {
            (Some(ids), Some(id)) => Some(ids.push(id)),
            _ => None,
        }
    }
}

/// The version denoted by `s`, if `s` is a canonical version text.
pub open spec fn spec_parse_version(s: Seq<char>) -> Option<VersionView> {
    let (core_pre, build_o) = split_head(s, '+');
    let (core, pre_o) = split_head(core_pre, '-');
    let nums = split_all(core, '.');
    if nums.len() != 3 {
        None
    } else {
        match (parse_u64(nums[0]), parse_u64(nums[1]), parse_u64(nums[2])) {
            (Some(major), Some(minor), Some(patch)) => {
                let pre_r = match pre_o {
                    None => Some(Seq::<IdView>::empty()),
                    Some(p) => parse_ids(split_all(p, '.')),
                };
                let build_r = match build_o {
                    None => Some(Seq::<IdView>::empty()),
                    Some(b) => parse_ids(split_all(b, '.')),
                };
                match (pre_r, build_r) {
                    (Some(pre), Some(build)) => Some(VersionView { major, minor, patch, pre, build }),
                    _ => None,
                }
            }
            _ => None,
        }
    }
}

/// Everything a canonical parse yields is well formed.
pub proof fn lemma_parse_id_wf(s: Seq<char>)
    ensures parse_id(s) matches Some(i) ==> id_wf(i),
{
}

pub proof fn lemma_parse_ids_wf(parts: Seq<Seq<char>>)
    ensures parse_ids(parts) matches Some(ids) ==> ids_wf(ids),
    decreases parts.len(),
{
    if parts.len() > 0 {
        lemma_parse_ids_wf(parts.drop_last());
        lemma_parse_id_wf(parts.last());
    }
}

pub proof fn lemma_parse_version_wf(s: Seq<char>)
    ensures spec_parse_version(s) matches Some(v) ==> version_wf(v),
{
    let (core_pre, build_o) = split_head(s, '+');
    let (core, pre_o) = split_head(core_pre, '-');
    match pre_o {
        Some(p) => lemma_parse_ids_wf(split_all(p, '.')),
        None => {}
    }
    match build_o {
        Some(b) => lemma_parse_ids_wf(split_all(b, '.')),
        None => {}
    }
}

// ---------------------------------------------------------------------------
// Parsing (executable)
// ---------------------------------------------------------------------------

fn parse_id_exec(p: &Vec<char>) -> (r: Option<Identifier>)
    ensures
        match r {
            Some(i) => parse_id(p@) == Some(i@),
            None => parse_id(p@) is None,
        },
{
    let n = p.len();
    if n == 0 {
        return None;
    }
    let mut i: usize = 0;
    let mut digits_only = true;
    let mut id_chars_only = true;
    while i < n
        invariant
            i <= n,
            n == p@.len(),
            digits_only == (forall|j: int| 0 <= j < i ==> is_digit(#[trigger] p@[j])),
            id_chars_only == (forall|j: int| 0 <= j < i ==> is_id_char(#[trigger] p@[j])),
        decreases n - i,
    {
        let c = p[i];
        if !is_digit_exec(c) {
            digits_only = false;
        }
        if !is_id_char_exec(c) {
            id_chars_only = false;
        }
        i = i + 1;
    }
    if digits_only {
        match parse_u64_exec(p) {
            Some(v) => Some(Identifier::Numeric(v)),
            None => None,
        }
    } else if id_chars_only {
        let copy = subvec(p, 0, p.len());
        proof {
            assert(copy@ =~= p@);
        }
        Some(Identifier::Alpha(copy))
    } else {
        None
    }
}

/// Executable identifier-character test.
pub fn is_id_char_exec(c: char) -> (r: bool)
    ensures r == is_id_char(c),
{
    let u = c as u32;
    (48 <= u && u <= 57) || (97 <= u && u <= 122) || (65 <= u && u <= 90) || c == '-'
}

pub open spec fn views_of(parts: Seq<Vec<char>>) -> Seq<Seq<char>> {
    parts.map_values(|p: Vec<char>| p@)
}

/// If one part fails to parse, the whole identifier list fails.
proof fn lemma_parse_ids_none(parts: Seq<Seq<char>>, k: int)
    requires
        0 <= k < parts.len(),
        parse_id(parts[k]) is None,
    ensures parse_ids(parts) is None,
    decreases parts.len(),
{
    if k == parts.len() - 1 {
    } else {
        lemma_parse_ids_none(parts.drop_last(), k);
    }
}

fn parse_ids_exec(parts: &Vec<Vec<char>>) -> (r: Option<Vec<Identifier>>)
    ensures
        match r {
            Some(ids) => parse_ids(views_of(parts@)) == Some(id_views(ids@)),
            None => parse_ids(views_of(parts@)) is None,
        },
{
    let mut ids: Vec<Identifier> = Vec::new();
    let n = parts.len();
    let mut i: usize = 0;
    while i < n
        invariant
            i <= n,
            n == parts@.len(),
            parse_ids(views_of(parts@).take(i as int)) == Some(id_views(ids@)),
        decreases n - i,
    {
        match parse_id_exec(&parts[i]) {
            Some(id) => {
                let ghost old_ids = ids@;
                ids.push(id);
                proof {
                    let vs = views_of(parts@);
                    assert(vs[i as int] == parts@[i as int]@);
                    assert(vs.take(i + 1 as int).drop_last() =~= vs.take(i as int));
                    assert(vs.take(i + 1 as int).last() == vs[i as int]);
                    assert(id_views(old_ids.push(id)) =~= id_views(old_ids).push(id@));
                }
            }
            None => {
                proof {
                    let vs = views_of(parts@);
                    assert(vs[i as int] == parts@[i as int]@);
                    lemma_parse_ids_none(vs, i as int);
                }
                return None;
            }
        }
        i = i + 1;
    }
    proof {
        assert(views_of(parts@).take(n as int) =~= views_of(parts@));
    }
    Some(ids)
}

impl Version {
    /// Parse a canonical `major.minor.patch[-pre][+build]` version text.
    pub fn parse(s: &str) -> (r: Option<Version>)
        ensures
            match r {
                Some(v) => spec_parse_version(s@) == Some(v@),
                None => spec_parse_version(s@) is None,
            },
    {
        let cs = chars_of(s);
        Version::parse_chars(&cs)
    }

    /// Parse from an explicit character vector.
    pub fn parse_chars(cs: &Vec<char>) -> (r: Option<Version>)
        ensures
            match r {
                Some(v) => spec_parse_version(cs@) == Some(v@),
                None => spec_parse_version(cs@) is None,
            },
    {
        let (core_pre, build_o) = split_head_exec(cs, '+');
        let (core, pre_o) = split_head_exec(&core_pre, '-');
        let nums = split_all_exec(&core, '.');
        if nums.len() != 3 {
            proof {
                lemma_split_all_len(core@, '.');
            }
            return None;
        }
        let major = match parse_u64_exec(&nums[0]) {
            Some(n) => n,
            None => { return None; }
        };
        let minor = match parse_u64_exec(&nums[1]) {
            Some(n) => n,
            None => { return None; }
        };
        let patch = match parse_u64_exec(&nums[2]) {
            Some(n) => n,
            None => { return None; }
        };
        let pre: Vec<Identifier> = match pre_o {
            None => Vec::new(),
            Some(p) => {
                let pparts = split_all_exec(&p, '.');
                match parse_ids_exec(&pparts) {
                    Some(ids) => {
                        proof {
                            assert(views_of(pparts@) =~= split_all(p@, '.'));
                        }
                        ids
                    }
                    None => {
                        proof {
                            assert(views_of(pparts@) =~= split_all(p@, '.'));
                        }
                        return None;
                    }
                }
            }
        };
        let build: Vec<Identifier> = match build_o {
            None => Vec::new(),
            Some(b) => {
                let bparts = split_all_exec(&b, '.');
                match parse_ids_exec(&bparts) {
                    Some(ids) => {
                        proof {
                            assert(views_of(bparts@) =~= split_all(b@, '.'));
                        }
                        ids
                    }
                    None => {
                        proof {
                            assert(views_of(bparts@) =~= split_all(b@, '.'));
                        }
                        return None;
                    }
                }
            }
        };
        let v = Version { major, minor, patch, pre, build };
        proof {
            assert(id_views(Seq::<Identifier>::empty()) =~= Seq::<IdView>::empty());
            assert(spec_parse_version(cs@) matches Some(w) && w =~= v@);
        }
        Some(v)
    }
}

// ---------------------------------------------------------------------------
// Rendering (executable)
// ---------------------------------------------------------------------------

fn render_id_exec(i: &Identifier) -> (r: Vec<char>)
    ensures r@ == render_id(i@),
{
    match i {
        Identifier::Numeric(n) => render_u64_exec(*n),
        Identifier::Alpha(s) => subvec(s, 0, s.len()),
    }
}

fn render_ids_exec(ids: &Vec<Identifier>) -> (r: Vec<char>)
    requires ids@.len() >= 1,
    ensures r@ == render_ids(id_views(ids@)),
{
    let mut out = render_id_exec(&ids[0]);
    let mut i: usize = 1;
    proof {
        let m0 = id_views(ids@).take(1).map_values(|x: IdView| render_id(x));
        assert(m0 =~= seq![render_id(ids@[0]@)]);
        assert(out@ == join(m0, '.'));
    }
    while i < ids.len()
        invariant
            1 <= i <= ids@.len(),
            out@ == join(id_views(ids@).take(i as int).map_values(|x: IdView| render_id(x)), '.'),
        decreases ids@.len() - i,
    {
        let part = render_id_exec(&ids[i]);
        out.push('.');
        extend_chars(&mut out, &part);
        proof {
            let mapped = id_views(ids@).take(i as int).map_values(|x: IdView| render_id(x));
            let mapped1 = id_views(ids@).take(i + 1 as int).map_values(|x: IdView| render_id(x));
            assert(mapped1 =~= mapped.push(render_id(ids@[i as int]@)));
            lemma_join_push(mapped, render_id(ids@[i as int]@), '.');
            assert(out@ =~= join(mapped, '.') + seq!['.'] + render_id(ids@[i as int]@));
        }
        i = i + 1;
    }
    proof {
        assert(id_views(ids@).take(ids@.len() as int) =~= id_views(ids@));
    }
    out
}

/// Append the characters of `src` to `dst`.
pub fn extend_chars(dst: &mut Vec<char>, src: &Vec<char>)
    ensures final(dst)@ == old(dst)@ + src@,
{
    let mut i: usize = 0;
    while i < src.len()
        invariant
            i <= src@.len(),
            dst@ == old(dst)@ + src@.subrange(0, i as int),
        decreases src@.len() - i,
    {
        dst.push(src[i]);
        i = i + 1;
        proof {
            assert(dst@ =~= old(dst)@ + src@.subrange(0, i as int));
        }
    }
    proof {
        assert(old(dst)@ + src@.subrange(0, i as int) =~= old(dst)@ + src@);
    }
}

impl Version {
    /// The canonical text of this version, as characters.
    pub fn render_chars(&self) -> (r: Vec<char>)
        ensures r@ == render_version(self@),
    {
        let mut out = render_u64_exec(self.major);
        out.push('.');
        let minor_cs = render_u64_exec(self.minor);
        extend_chars(&mut out, &minor_cs);
        out.push('.');
        let patch_cs = render_u64_exec(self.patch);
        extend_chars(&mut out, &patch_cs);
        proof {
            assert(out@ =~= render_u64(self.major as nat) + seq!['.']
                + render_u64(self.minor as nat) + seq!['.'] + render_u64(self.patch as nat));
        }
        if self.pre.len() > 0 {
            out.push('-');
            let pre_cs = render_ids_exec(&self.pre);
            extend_chars(&mut out, &pre_cs);
            proof {
                assert(id_views(self.pre@).len() == self.pre@.len());
                assert(out@ =~= (render_u64(self.major as nat) + seq!['.']
                    + render_u64(self.minor as nat) + seq!['.'] + render_u64(self.patch as nat))
                    + seq!['-'] + render_ids(id_views(self.pre@)));
            }
        }
        if self.build.len() > 0 {
            out.push('+');
            let build_cs = render_ids_exec(&self.build);
            extend_chars(&mut out, &build_cs);
        }
        proof {
            assert(id_views(self.pre@).len() == self.pre@.len());
            assert(id_views(self.build@).len() == self.build@.len());
            assert(out@ =~= render_version(self@));
        }
        out
    }

    /// The canonical text of this version.
    pub fn version_string(&self) -> (r: String)
        ensures r@ == render_version(self@),
    {
        let cs = self.render_chars();
        string_of(&cs)
    }
}

// ---------------------------------------------------------------------------
// Copying
// ---------------------------------------------------------------------------

fn duplicate_ids(ids: &Vec<Identifier>) -> (r: Vec<Identifier>)
    ensures id_views(r@) == id_views(ids@),
{
    let mut out: Vec<Identifier> = Vec::new();
    let mut i: usize = 0;
    while i < ids.len()
        invariant
            i <= ids@.len(),
            out@.len() == i,
            forall|j: int| 0 <= j < i ==> (#[trigger] out@[j])@ == ids@[j]@,
        decreases ids@.len() - i,
    {
        let copy = match &ids[i] {
            Identifier::Numeric(n) => Identifier::Numeric(*n),
            Identifier::Alpha(s) => {
                let cs = subvec(s, 0, s.len());
                proof {
                    assert(cs@ =~= s@);
                }
                Identifier::Alpha(cs)
            }
        };
        out.push(copy);
        i = i + 1;
    }
    proof {
        assert forall|j: int| 0 <= j < ids@.len()
            implies #[trigger] id_views(out@)[j] == id_views(ids@)[j] by {
            assert(id_views(out@)[j] == out@[j]@);
            assert(id_views(ids@)[j] == ids@[j]@);
        }
        assert(id_views(out@) =~= id_views(ids@));
    }
    out
}

impl Version {
    /// A copy with the same model.
    pub fn duplicate(&self) -> (r: Version)
        ensures r@ == self@,
    {
        let r = Version {
            major: self.major,
            minor: self.minor,
            patch: self.patch,
            pre: duplicate_ids(&self.pre),
            build: duplicate_ids(&self.build),
        };
        proof {
            assert(r@ =~= self@);
        }
        r
    }
}

// ---------------------------------------------------------------------------
// Round trip: parsing a rendered version restores it
// ---------------------------------------------------------------------------

/// Characters produced by `render_u64` are digits.
pub proof fn lemma_render_u64_digits(n: nat)
    ensures
        render_u64(n).len() >= 1,
        forall|j: int| 0 <= j < render_u64(n).len() ==> is_digit(#[trigger] render_u64(n)[j]),
{
    lemma_render_u64_parses(n);
}

/// Characters produced by `render_id` on a well-formed identifier.
proof fn lemma_render_id_chars(i: IdView)
    requires id_wf(i),
    ensures
        render_id(i).len() >= 1,
        forall|j: int| 0 <= j < render_id(i).len() ==> is_id_char(#[trigger] render_id(i)[j]),
{
    match i {
        IdView::Numeric(n) => {
            lemma_render_u64_digits(n as nat);
        }
        IdView::Alpha(_) => {}
    }
}

/// Characters of a join are characters of the parts or the separator.
proof fn lemma_join_chars(parts: Seq<Seq<char>>, c: char)
    ensures
        forall|j: int| 0 <= j < join(parts, c).len()
            ==> #[trigger] join(parts, c)[j] == c
                || exists|k: int, l: int| 0 <= k < parts.len() && 0 <= l < parts[k].len()
                    && join(parts, c)[j] == #[trigger] parts[k][l],
    decreases parts.len(),
{
    if parts.len() > 1 {
        lemma_join_chars(parts.drop_last(), c);
        let jn = join(parts, c);
        let ji = join(parts.drop_last(), c);
        assert forall|j: int| 0 <= j < jn.len()
            implies jn[j] == c
                || exists|k: int, l: int| 0 <= k < parts.len() && 0 <= l < parts[k].len()
                    && jn[j] == #[trigger] parts[k][l] by {
            if j < ji.len() {
                assert(jn[j] == ji[j]);
                if ji[j] != c {
                    let (k, l) = choose|k: int, l: int|
                        0 <= k < parts.drop_last().len() && 0 <= l < parts.drop_last()[k].len()
                        && ji[j] == #[trigger] parts.drop_last()[k][l];
                    assert(parts.drop_last()[k] == parts[k]);
                    assert(jn[j] == parts[k][l]);
                }
            } else if j == ji.len() {
                assert(jn[j] == c);
            } else {
                let l = j - ji.len() - 1;
                assert(jn[j] == parts.last()[l]);
                assert(parts.last() == parts[parts.len() - 1]);
            }
        }
    }
}

/// Characters of well-formed rendered identifiers: identifier chars or dots.
proof fn lemma_render_ids_chars(ids: Seq<IdView>)
    requires ids_wf(ids), ids.len() >= 1,
    ensures
        render_ids(ids).len() >= 1,
        forall|j: int| 0 <= j < render_ids(ids).len()
            ==> is_id_char(#[trigger] render_ids(ids)[j]) || render_ids(ids)[j] == '.',
{
    let mapped = ids.map_values(|i: IdView| render_id(i));
    lemma_join_chars(mapped, '.');
    assert forall|k: int| 0 <= k < ids.len()
        implies (#[trigger] mapped[k]).len() >= 1
            && forall|l: int| 0 <= l < mapped[k].len() ==> is_id_char(#[trigger] mapped[k][l]) by {
        assert(id_wf(ids[k]));
        lemma_render_id_chars(ids[k]);
    }
    // the join is at least as long as its first part
    lemma_join_len(mapped, '.');
    assert(mapped[0].len() >= 1);
}

/// A join is at least as long as each of its parts.
proof fn lemma_join_len(parts: Seq<Seq<char>>, c: char)
    requires parts.len() >= 1,
    ensures join(parts, c).len() >= parts[0].len(),
    decreases parts.len(),
{
    if parts.len() > 1 {
        lemma_join_len(parts.drop_last(), c);
        assert(parts.drop_last()[0] == parts[0]);
    }
}

/// Rendered identifier lists parse back to the identifiers.
proof fn lemma_parse_ids_render(ids: Seq<IdView>)
    requires ids_wf(ids), ids.len() >= 1,
    ensures parse_ids(split_all(render_ids(ids), '.')) == Some(ids),
{
    let mapped = ids.map_values(|i: IdView| render_id(i));
    assert forall|k: int, j: int| 0 <= k < mapped.len() && 0 <= j < mapped[k].len()
        implies #[trigger] mapped[k][j] != '.' by {
        assert(id_wf(ids[k]));
        lemma_render_id_chars(ids[k]);
        assert(is_id_char(mapped[k][j]));
    }
    lemma_split_join(mapped, '.');
    lemma_parse_ids_mapped(ids);
}

/// Identifier-by-identifier: parsing the rendering is the identity.
proof fn lemma_parse_id_render(i: IdView)
    requires id_wf(i),
    ensures parse_id(render_id(i)) == Some(i),
{
    match i {
        IdView::Numeric(n) => {
            lemma_render_u64_parses(n as nat);
        }
        IdView::Alpha(s) => {
            assert(!all_digits(s));
            assert(render_id(i) == s);
        }
    }
}

proof fn lemma_parse_ids_mapped(ids: Seq<IdView>)
    requires ids_wf(ids),
    ensures parse_ids(ids.map_values(|i: IdView| render_id(i))) == Some(ids),
    decreases ids.len(),
{
    let mapped = ids.map_values(|i: IdView| render_id(i));
    if ids.len() == 0 {
        assert(mapped.len() == 0);
        assert(parse_ids(mapped) == Some(Seq::<IdView>::empty()));
        assert(Seq::<IdView>::empty() =~= ids);
    } else {
        lemma_parse_ids_mapped(ids.drop_last());
        assert(mapped.drop_last() =~= ids.drop_last().map_values(|i: IdView| render_id(i)));
        assert(mapped.last() == render_id(ids.last()));
        assert(id_wf(ids.last()));
        lemma_parse_id_render(ids.last());
        assert(ids.drop_last().push(ids.last()) =~= ids);
    }
}

/// Every character of a rendered version: digit, dot, or separator/identifier
/// characters — never whitespace, never `=`.
pub proof fn lemma_render_version_chars(v: VersionView)
    requires version_wf(v),
    ensures
        render_version(v).len() >= 1,
        forall|j: int| 0 <= j < render_version(v).len()
            ==> !crate::text::is_space(#[trigger] render_version(v)[j])
                && render_version(v)[j] != '=',
{
    lemma_render_u64_digits(v.major as nat);
    lemma_render_u64_digits(v.minor as nat);
    lemma_render_u64_digits(v.patch as nat);
    let rmaj = render_u64(v.major as nat);
    let rmin = render_u64(v.minor as nat);
    let rpat = render_u64(v.patch as nat);
    let core = rmaj + seq!['.'] + rmin + seq!['.'] + rpat;
    let with_pre = if v.pre.len() == 0 { core } else { core + seq!['-'] + render_ids(v.pre) };
    if v.pre.len() > 0 {
        lemma_render_ids_chars(v.pre);
    }
    if v.build.len() > 0 {
        lemma_render_ids_chars(v.build);
    }
    assert(forall|j: int| 0 <= j < core.len()
        ==> is_digit(#[trigger] core[j]) || core[j] == '.');
    assert(forall|j: int| 0 <= j < with_pre.len()
        ==> is_digit(#[trigger] with_pre[j]) || is_id_char(with_pre[j])
            || with_pre[j] == '.' || with_pre[j] == '-');
    assert(forall|j: int| 0 <= j < render_version(v).len()
        ==> is_digit(#[trigger] render_version(v)[j]) || is_id_char(render_version(v)[j])
            || render_version(v)[j] == '.' || render_version(v)[j] == '+');
}

/// Parsing the canonical rendering of a well-formed version restores it.
pub proof fn lemma_version_roundtrip(v: VersionView)
    requires version_wf(v),
    ensures spec_parse_version(render_version(v)) == Some(v),
{
    let rmaj = render_u64(v.major as nat);
    let rmin = render_u64(v.minor as nat);
    let rpat = render_u64(v.patch as nat);
    lemma_render_u64_digits(v.major as nat);
    lemma_render_u64_digits(v.minor as nat);
    lemma_render_u64_digits(v.patch as nat);
    let core = rmaj + seq!['.'] + rmin + seq!['.'] + rpat;
    let with_pre = if v.pre.len() == 0 { core } else { core + seq!['-'] + render_ids(v.pre) };
    let full = render_version(v);

    // every character of the core is a digit or a dot
    assert(forall|j: int| 0 <= j < core.len()
        ==> is_digit(#[trigger] core[j]) || core[j] == '.');
    if v.pre.len() > 0 {
        lemma_render_ids_chars(v.pre);
    }
    if v.build.len() > 0 {
        lemma_render_ids_chars(v.build);
    }

    // split at '+': digits, dots, hyphens and identifier chars are never '+'
    assert(forall|j: int| 0 <= j < with_pre.len() ==> with_pre[j] != '+');
    if v.build.len() == 0 {
        assert(full == with_pre);
        lemma_find_first_none(full, '+');
        assert(split_head(full, '+') == (with_pre, Option::<Seq<char>>::None));
    } else {
        assert(full == with_pre + seq!['+'] + render_ids(v.build));
        assert(full[with_pre.len() as int] == '+');
        assert(forall|j: int| 0 <= j < with_pre.len() ==> full[j] == with_pre[j] && full[j] != '+');
        lemma_find_first_at(full, '+', with_pre.len() as int);
        assert(full.subrange(0, with_pre.len() as int) =~= with_pre);
        assert(full.subrange(with_pre.len() as int + 1, full.len() as int) =~= render_ids(v.build));
    }

    // split at '-': the core is digits and dots only
    assert(forall|j: int| 0 <= j < core.len() ==> core[j] != '-');
    if v.pre.len() == 0 {
        lemma_find_first_none(core, '-');
        assert(split_head(core, '-') == (core, Option::<Seq<char>>::None));
    } else {
        assert(with_pre == core + seq!['-'] + render_ids(v.pre));
        assert(with_pre[core.len() as int] == '-');
        assert(forall|j: int| 0 <= j < core.len() ==> with_pre[j] == core[j] && with_pre[j] != '-');
        lemma_find_first_at(with_pre, '-', core.len() as int);
        assert(with_pre.subrange(0, core.len() as int) =~= core);
        assert(with_pre.subrange(core.len() as int + 1, with_pre.len() as int) =~= render_ids(v.pre));
    }

    // the core splits into the three numerals
    let parts = seq![rmaj, rmin, rpat];
    assert(forall|k: int, j: int| 0 <= k < parts.len() && 0 <= j < parts[k].len()
        ==> #[trigger] parts[k][j] != '.');
    lemma_split_join(parts, '.');
    assert(parts.drop_last() =~= seq![rmaj, rmin]);
    assert(seq![rmaj, rmin].drop_last() =~= seq![rmaj]);
    assert(join(seq![rmaj], '.') == rmaj);
    assert(join(seq![rmaj, rmin], '.') == join(seq![rmaj], '.') + seq!['.'] + rmin);
    assert(join(parts, '.') == join(seq![rmaj, rmin], '.') + seq!['.'] + rpat);
    assert(join(parts, '.') =~= core);
    assert(split_all(core, '.') == parts);

    lemma_render_u64_parses(v.major as nat);
    lemma_render_u64_parses(v.minor as nat);
    lemma_render_u64_parses(v.patch as nat);
    assert(parse_u64(rmaj) == Some(v.major));
    assert(parse_u64(rmin) == Some(v.minor));
    assert(parse_u64(rpat) == Some(v.patch));

    if v.pre.len() > 0 {
        lemma_parse_ids_render(v.pre);
    }
    if v.build.len() > 0 {
        lemma_parse_ids_render(v.build);
    }
    assert(spec_parse_version(full) matches Some(w) && w =~= v);
}

} // verus!
