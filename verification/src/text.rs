//! Character-sequence utilities shared by the parsers and renderers:
//! conversion between `&str`/`String` and `Vec<char>`, whitespace trimming,
//! splitting and joining on a separator, and decimal numerals.

use vstd::prelude::*;
use vstd::string::StrSliceExecFns;
use vstd::string::StringExecFns;

verus! {

// ---------------------------------------------------------------------------
// Character classes
// ---------------------------------------------------------------------------

pub open spec fn is_space(c: char) -> bool {
    c == ' ' || c == '\t' || c == '\n' || c == '\r'
}

pub open spec fn is_digit(c: char) -> bool {
    48 <= c as u32 && c as u32 <= 57
}

/// Value of a decimal digit character.
pub open spec fn digit_val(c: char) -> nat {
    (c as u32 - 48) as nat
}

/// The decimal digit character for `d` (meaningful for `d < 10`).
pub open spec fn digit_char(d: nat) -> char {
    if d == 0 { '0' } else if d == 1 { '1' } else if d == 2 { '2' }
    else if d == 3 { '3' } else if d == 4 { '4' } else if d == 5 { '5' }
    else if d == 6 { '6' } else if d == 7 { '7' } else if d == 8 { '8' }
    else { '9' }
}

pub proof fn lemma_digit_char_val(d: nat)
    requires d < 10,
    ensures
        is_digit(digit_char(d)),
        digit_val(digit_char(d)) == d,
        !is_space(digit_char(d)),
{
}

// ---------------------------------------------------------------------------
// &str / String conversions
// ---------------------------------------------------------------------------

/// The characters of `s`, one element per `char`.
pub fn chars_of(s: &str) -> (r: Vec<char>)
    ensures r@ == s@,
{
    let n = s.unicode_len();
    let mut v: Vec<char> = Vec::new();
    let mut i: usize = 0;
    while i < n
        invariant
            n == s@.len(),
            i <= n,
            v@ == s@.subrange(0, i as int),
        decreases n - i,
    {
        let c = s.get_char(i);
        v.push(c);
        i = i + 1;
        proof {
            assert(v@ =~= s@.subrange(0, i as int));
        }
    }
    proof {
        assert(v@ =~= s@);
    }
    v
}

/// Relies on `String::push` from std: appends one character at the end.
#[verifier::external_body]
fn push_char(s: &mut String, c: char)
    ensures final(s)@ == old(s)@.push(c),
{
    s.push(c);
}

/// A `String` holding exactly the characters of `cs`.
pub fn string_of(cs: &Vec<char>) -> (r: String)
    ensures r@ == cs@,
{
    let mut s = String::new();
    let mut i: usize = 0;
    while i < cs.len()
        invariant
            i <= cs@.len(),
            s@ == cs@.subrange(0, i as int),
        decreases cs@.len() - i,
    {
        push_char(&mut s, cs[i]);
        i = i + 1;
        proof {
            assert(s@ =~= cs@.subrange(0, i as int));
        }
    }
    proof {
        assert(s@ =~= cs@);
    }
    s
}

/// Copy of `v[from..to]`.
pub fn subvec(v: &Vec<char>, from: usize, to: usize) -> (r: Vec<char>)
    requires from <= to <= v@.len(),
    ensures r@ == v@.subrange(from as int, to as int),
{
    let mut r: Vec<char> = Vec::new();
    let mut i: usize = from;
    while i < to
        invariant
            from <= i <= to <= v@.len(),
            r@ == v@.subrange(from as int, i as int),
        decreases to - i,
    {
        r.push(v[i]);
        i = i + 1;
        proof {
            assert(r@ =~= v@.subrange(from as int, i as int));
        }
    }
    r
}

// ---------------------------------------------------------------------------
// Finding a character
// ---------------------------------------------------------------------------

/// Index of the first occurrence of `c` in `s`, if any.
pub open spec fn find_first(s: Seq<char>, c: char) -> Option<int>
    decreases s.len(),
{
    if s.len() == 0 {
        None
    } else if s[0] == c {
        Some(0)
    } else {
        match find_first(s.drop_first(), c) {
            Some(i) => Some(i + 1),
            None => None,
        }
    }
}

pub proof fn lemma_find_first(s: Seq<char>, c: char)
    ensures
        match find_first(s, c) {
            Some(i) => 0 <= i < s.len() && s[i] == c
                && forall|j: int| 0 <= j < i ==> s[j] != c,
            None => forall|j: int| 0 <= j < s.len() ==> s[j] != c,
        },
    decreases s.len(),
{
    if s.len() > 0 && s[0] != c {
        let t = s.drop_first();
        lemma_find_first(t, c);
        assert(forall|j: int| 1 <= j < s.len() ==> s[j] == #[trigger] t[j - 1]);
        match find_first(t, c) {
            Some(i) => {
                assert(s[i + 1] == t[i]);
                assert forall|j: int| 0 <= j < i + 1 implies s[j] != c by {
                    if j >= 1 {
                        assert(s[j] == t[j - 1]);
                    }
                }
            }
            None => {
                assert forall|j: int| 0 <= j < s.len() implies s[j] != c by {
                    if j >= 1 {
                        assert(s[j] == t[j - 1]);
                    }
                }
            }
        }
    }
}

pub proof fn lemma_find_first_at(s: Seq<char>, c: char, i: int)
    requires
        0 <= i < s.len(),
        s[i] == c,
        forall|j: int| 0 <= j < i ==> s[j] != c,
    ensures find_first(s, c) == Some(i),
{
    lemma_find_first(s, c);
}

pub proof fn lemma_find_first_none(s: Seq<char>, c: char)
    requires forall|j: int| 0 <= j < s.len() ==> s[j] != c,
    ensures find_first(s, c) is None,
{
    lemma_find_first(s, c);
}

pub fn find_char(v: &Vec<char>, c: char) -> (r: Option<usize>)
    ensures
        match r {
            Some(k) => find_first(v@, c) == Some(k as int),
            None => find_first(v@, c) is None,
        },
{
    let mut i: usize = 0;
    while i < v.len()
        invariant
            i <= v@.len(),
            forall|j: int| 0 <= j < i ==> v@[j] != c,
        decreases v@.len() - i,
    {
        if v[i] == c {
            proof {
                lemma_find_first_at(v@, c, i as int);
            }
            return Some(i);
        }
        i = i + 1;
    }
    proof {
        lemma_find_first_none(v@, c);
    }
    None
}

// ---------------------------------------------------------------------------
// Splitting at the first occurrence
// ---------------------------------------------------------------------------

/// `s` split at the first occurrence of `c`: the part before it, and the part
/// after it if `c` occurs at all.
pub open spec fn split_head(s: Seq<char>, c: char) -> (Seq<char>, Option<Seq<char>>) {
    match find_first(s, c) {
        None => (s, None),
        Some(i) => (s.subrange(0, i), Some(s.subrange(i + 1, s.len() as int))),
    }
}

pub fn split_head_exec(v: &Vec<char>, c: char) -> (r: (Vec<char>, Option<Vec<char>>))
    ensures
        r.0@ == split_head(v@, c).0,
        match r.1 {
            Some(rest) => split_head(v@, c).1 == Some(rest@),
            None => split_head(v@, c).1 is None,
        },
{
    match find_char(v, c) {
        None => (subvec(v, 0, v.len()), None),
        Some(i) => {
            proof {
                lemma_find_first(v@, c);
                assert((i as int) < v@.len());
                assert(i < v.len());
            }
            let head = subvec(v, 0, i);
            let tail = subvec(v, i + 1, v.len());
            (head, Some(tail))
        }
    }
}

// ---------------------------------------------------------------------------
// Splitting on every occurrence, and joining
// ---------------------------------------------------------------------------

/// `s` split on every occurrence of `c`; always at least one part.
pub open spec fn split_all(s: Seq<char>, c: char) -> Seq<Seq<char>>
    decreases s.len(),
{
    if s.len() == 0 {
        seq![Seq::<char>::empty()]
    } else {
        let init = split_all(s.drop_last(), c);
        if s.last() == c {
            init.push(Seq::<char>::empty())
        } else {
            init.update(init.len() - 1, init.last().push(s.last()))
        }
    }
}

pub proof fn lemma_split_all_len(s: Seq<char>, c: char)
    ensures split_all(s, c).len() >= 1,
    decreases s.len(),
{
    if s.len() > 0 {
        lemma_split_all_len(s.drop_last(), c);
    }
}

/// The parts joined with `c` between consecutive parts.
pub open spec fn join(parts: Seq<Seq<char>>, c: char) -> Seq<char>
    decreases parts.len(),
{
    if parts.len() == 0 {
        Seq::<char>::empty()
    } else if parts.len() == 1 {
        parts[0]
    } else {
        join(parts.drop_last(), c) + seq![c] + parts.last()
    }
}

/// Splitting a `c`-free sequence yields that sequence as the only part.
pub proof fn lemma_split_all_free(s: Seq<char>, c: char)
    requires forall|j: int| 0 <= j < s.len() ==> s[j] != c,
    ensures split_all(s, c) == seq![s],
    decreases s.len(),
{
    if s.len() == 0 {
        assert(s =~= Seq::<char>::empty());
        assert(split_all(s, c) =~= seq![s]);
    } else {
        let sd = s.drop_last();
        lemma_split_all_free(sd, c);
        assert(s.last() != c);
        assert(seq![sd].last() == sd);
        assert(sd.push(s.last()) =~= s);
        assert(split_all(s, c) == seq![sd].update(0int, s));
        assert(seq![sd].update(0int, s) =~= seq![s]);
    }
}

/// Appending a `c`-free tail extends the last part.
pub proof fn lemma_split_all_append(s: Seq<char>, b: Seq<char>, c: char)
    requires forall|j: int| 0 <= j < b.len() ==> b[j] != c,
    ensures ({
        let base = split_all(s, c);
        split_all(s + b, c) == base.update(base.len() - 1, base.last() + b)
    }),
    decreases b.len(),
{
    lemma_split_all_len(s, c);
    let base = split_all(s, c);
    if b.len() == 0 {
        assert(s + b =~= s);
        assert(base.update(base.len() - 1, base.last() + b) =~= base);
    } else {
        lemma_split_all_append(s, b.drop_last(), c);
        let sb = s + b;
        assert(sb.drop_last() =~= s + b.drop_last());
        assert(sb.last() == b.last());
        let mid = split_all(s + b.drop_last(), c);
        assert(mid == base.update(base.len() - 1, base.last() + b.drop_last()));
        assert(split_all(sb, c) == mid.update(mid.len() - 1, mid.last().push(b.last())));
        assert(mid.last() == base.last() + b.drop_last());
        assert(mid.last().push(b.last()) =~= base.last() + b);
        assert(mid.update(mid.len() - 1, mid.last().push(b.last()))
            =~= base.update(base.len() - 1, base.last() + b));
    }
}

/// Splitting undoes joining, provided every part is `c`-free.
pub proof fn lemma_split_join(parts: Seq<Seq<char>>, c: char)
    requires
        parts.len() >= 1,
        forall|k: int, j: int| 0 <= k < parts.len() && 0 <= j < parts[k].len()
            ==> #[trigger] parts[k][j] != c,
    ensures split_all(join(parts, c), c) == parts,
    decreases parts.len(),
{
    if parts.len() == 1 {
        assert(join(parts, c) == parts[0]);
        lemma_split_all_free(parts[0], c);
        assert(seq![parts[0]] =~= parts);
    } else {
        let init = parts.drop_last();
        lemma_split_join(init, c);
        let ji = join(init, c);
        let j1 = ji + seq![c];
        assert(join(parts, c) =~= j1 + parts.last());
        // splitting `ji + [c]` appends one empty part
        assert(j1.drop_last() =~= ji);
        assert(j1.last() == c);
        assert(split_all(j1, c) == split_all(ji, c).push(Seq::<char>::empty()));
        lemma_split_all_append(j1, parts.last(), c);
        let base = split_all(j1, c);
        assert(base == init.push(Seq::<char>::empty()));
        assert(base.update(base.len() - 1, base.last() + parts.last()) =~= parts);
    }
}

/// Forward-building form: joining one more part appends a separator and the part.
pub proof fn lemma_join_push(parts: Seq<Seq<char>>, p: Seq<char>, c: char)
    requires parts.len() >= 1,
    ensures join(parts.push(p), c) == join(parts, c) + seq![c] + p,
{
    let pp = parts.push(p);
    assert(pp.drop_last() =~= parts);
    assert(pp.last() == p);
}

/// Splitting on every occurrence, executable form.
pub fn split_all_exec(v: &Vec<char>, c: char) -> (r: Vec<Vec<char>>)
    ensures
        r@.len() == split_all(v@, c).len(),
        forall|k: int| 0 <= k < r@.len() ==> r@[k]@ == split_all(v@, c)[k],
{
    let mut done: Vec<Vec<char>> = Vec::new();
    let mut cur: Vec<char> = Vec::new();
    let mut i: usize = 0;
    while i < v.len()
        invariant
            i <= v@.len(),
            ({
                let sp = split_all(v@.subrange(0, i as int), c);
                done@.len() + 1 == sp.len()
                && (forall|k: int| 0 <= k < done@.len() ==> done@[k]@ == sp[k])
                && cur@ == sp.last()
            }),
        decreases v@.len() - i,
    {
        proof {
            let pre = v@.subrange(0, i as int);
            let pre1 = v@.subrange(0, i + 1 as int);
            assert(pre1.drop_last() =~= pre);
            assert(pre1.last() == v@[i as int]);
            lemma_split_all_len(pre, c);
        }
        if v[i] == c {
            done.push(cur);
            cur = Vec::new();
        } else {
            cur.push(v[i]);
        }
        i = i + 1;
    }
    proof {
        assert(v@.subrange(0, i as int) =~= v@);
        lemma_split_all_len(v@, c);
    }
    done.push(cur);
    done
}

// ---------------------------------------------------------------------------
// Trimming
// ---------------------------------------------------------------------------

pub open spec fn trim_start(s: Seq<char>) -> Seq<char>
    decreases s.len(),
{
    if s.len() > 0 && is_space(s[0]) {
        trim_start(s.drop_first())
    } else {
        s
    }
}

pub open spec fn trim_end(s: Seq<char>) -> Seq<char>
    decreases s.len(),
{
    if s.len() > 0 && is_space(s.last()) {
        trim_end(s.drop_last())
    } else {
        s
    }
}

/// `s` with leading and trailing whitespace removed.
pub open spec fn trim(s: Seq<char>) -> Seq<char> {
    trim_end(trim_start(s))
}

proof fn lemma_trim_start_skip(s: Seq<char>, i: int)
    requires
        0 <= i <= s.len(),
        forall|j: int| 0 <= j < i ==> is_space(s[j]),
        i < s.len() ==> !is_space(s[i]),
    ensures trim_start(s) == s.skip(i),
    decreases i,
{
    if i == 0 {
        assert(s.skip(0) =~= s);
    } else {
        assert(is_space(s[0]));
        let t = s.drop_first();
        assert(forall|j: int| 0 <= j < i - 1 ==> t[j] == s[j + 1]);
        lemma_trim_start_skip(t, i - 1);
        assert(t.skip(i - 1) =~= s.skip(i));
    }
}

proof fn lemma_trim_end_take(s: Seq<char>, e: int)
    requires
        0 <= e <= s.len(),
        forall|j: int| e <= j < s.len() ==> is_space(s[j]),
        e > 0 ==> !is_space(s[e - 1]),
    ensures trim_end(s) == s.take(e),
    decreases s.len() - e,
{
    if e == s.len() {
        assert(s.take(e) =~= s);
        if s.len() > 0 {
            assert(!is_space(s.last()));
        }
    } else {
        assert(is_space(s.last()));
        let t = s.drop_last();
        lemma_trim_end_take(t, e);
        assert(t.take(e) =~= s.take(e));
    }
}

/// If neither end is whitespace, trimming changes nothing.
pub proof fn lemma_trim_noop(s: Seq<char>)
    requires
        s.len() > 0 ==> !is_space(s[0]) && !is_space(s.last()),
    ensures trim(s) == s,
{
}

proof fn lemma_trim_start_no_char(s: Seq<char>, c: char)
    requires forall|j: int| 0 <= j < s.len() ==> s[j] != c,
    ensures forall|j: int| 0 <= j < trim_start(s).len() ==> trim_start(s)[j] != c,
    decreases s.len(),
{
    if s.len() > 0 && is_space(s[0]) {
        let t = s.drop_first();
        assert forall|j: int| 0 <= j < t.len() implies t[j] != c by {
            assert(t[j] == s[j + 1]);
        }
        lemma_trim_start_no_char(t, c);
        assert(trim_start(s) == trim_start(t));
        assert forall|j: int| 0 <= j < trim_start(s).len() implies trim_start(s)[j] != c by {
            assert(trim_start(s)[j] == trim_start(t)[j]);
        }
    }
}

proof fn lemma_trim_end_no_char(s: Seq<char>, c: char)
    requires forall|j: int| 0 <= j < s.len() ==> s[j] != c,
    ensures forall|j: int| 0 <= j < trim_end(s).len() ==> trim_end(s)[j] != c,
    decreases s.len(),
{
    if s.len() > 0 && is_space(s.last()) {
        let t = s.drop_last();
        assert forall|j: int| 0 <= j < t.len() implies t[j] != c by {
            assert(t[j] == s[j]);
        }
        lemma_trim_end_no_char(t, c);
        assert(trim_end(s) == trim_end(t));
        assert forall|j: int| 0 <= j < trim_end(s).len() implies trim_end(s)[j] != c by {
            assert(trim_end(s)[j] == trim_end(t)[j]);
        }
    }
}

/// A character absent from `s` is absent from its trim.
pub proof fn lemma_trim_no_char(s: Seq<char>, c: char)
    requires forall|j: int| 0 <= j < s.len() ==> s[j] != c,
    ensures forall|j: int| 0 <= j < trim(s).len() ==> trim(s)[j] != c,
{
    lemma_trim_start_no_char(s, c);
    lemma_trim_end_no_char(trim_start(s), c);
}

proof fn lemma_trim_start_head(s: Seq<char>)
    ensures trim_start(s).len() > 0 ==> !is_space(trim_start(s)[0]),
    decreases s.len(),
{
    if s.len() > 0 && is_space(s[0]) {
        lemma_trim_start_head(s.drop_first());
    }
}

proof fn lemma_trim_end_last(s: Seq<char>)
    ensures
        trim_end(s).len() > 0 ==> !is_space(trim_end(s).last()),
        trim_end(s).len() > 0 ==> trim_end(s)[0] == s[0],
    decreases s.len(),
{
    if s.len() > 0 && is_space(s.last()) {
        lemma_trim_end_last(s.drop_last());
    }
}

/// Trimming is idempotent.
pub proof fn lemma_trim_idem(s: Seq<char>)
    ensures trim(trim(s)) == trim(s),
{
    lemma_trim_start_head(s);
    lemma_trim_end_last(trim_start(s));
    let t = trim(s);
    if t.len() > 0 {
        lemma_trim_noop(t);
    }
}

/// Trimmed copy of `v`.
pub fn trim_exec(v: &Vec<char>) -> (r: Vec<char>)
    ensures r@ == trim(v@),
{
    let n = v.len();
    let mut start: usize = 0;
    while start < n && is_space_exec(v[start])
        invariant
            start <= n,
            n == v@.len(),
            forall|j: int| 0 <= j < start ==> is_space(v@[j]),
        decreases n - start,
    {
        start = start + 1;
    }
    proof {
        lemma_trim_start_skip(v@, start as int);
    }
    if start == n {
        proof {
            assert(v@.skip(start as int) =~= Seq::<char>::empty());
        }
        return Vec::new();
    }
    let mut end: usize = n;
    while end > start && is_space_exec(v[end - 1])
        invariant
            start <= end <= n,
            n == v@.len(),
            forall|j: int| end <= j < n ==> is_space(v@[j]),
        decreases end,
    {
        end = end - 1;
    }
    // v[start] is not a space, so end stays above start
    proof {
        let t = v@.skip(start as int);
        assert(forall|j: int| 0 <= j < t.len() ==> t[j] == v@[j + start]);
        assert(end > start);
        lemma_trim_end_take(t, end - start);
        assert(t.take(end - start) =~= v@.subrange(start as int, end as int));
    }
    subvec(v, start, end)
}

/// Executable whitespace test matching `is_space`.
pub fn is_space_exec(c: char) -> (r: bool)
    ensures r == is_space(c),
{
    c == ' ' || c == '\t' || c == '\n' || c == '\r'
}

// ---------------------------------------------------------------------------
// Decimal numerals
// ---------------------------------------------------------------------------

/// A canonical decimal numeral: nonempty, digits only, no leading zero.
pub open spec fn valid_numeral(s: Seq<char>) -> bool {
    s.len() > 0
    && (forall|j: int| 0 <= j < s.len() ==> is_digit(#[trigger] s[j]))
    && (s.len() > 1 ==> s[0] != '0')
}

/// Value of a digit sequence read as decimal.
pub open spec fn dec_val(s: Seq<char>) -> nat
    decreases s.len(),
{
    if s.len() == 0 {
        0
    } else {
        dec_val(s.drop_last()) * 10 + digit_val(s.last())
    }
}

/// The parsed value of a numeral, if canonical and within `u64`.
pub open spec fn parse_u64(s: Seq<char>) -> Option<u64> {
    if valid_numeral(s) && dec_val(s) <= u64::MAX {
        Some(dec_val(s) as u64)
    } else {
        None
    }
}

/// The canonical decimal rendering of `n`.
pub open spec fn render_u64(n: nat) -> Seq<char>
    decreases n,
{
    if n < 10 {
        seq![digit_char(n)]
    } else {
        render_u64(n / 10).push(digit_char(n % 10))
    }
}

/// Rendering yields a canonical numeral that parses back to `n`.
pub proof fn lemma_render_u64_parses(n: nat)
    ensures
        valid_numeral(render_u64(n)),
        dec_val(render_u64(n)) == n,
        render_u64(n).len() >= 1,
        render_u64(n)[0] != '0' || n == 0,
    decreases n,
{
    if n < 10 {
        lemma_digit_char_val(n);
        let s = seq![digit_char(n)];
        assert(render_u64(n) == s);
        assert(s.last() == digit_char(n));
        assert(s.drop_last() =~= Seq::<char>::empty());
        assert(dec_val(s.drop_last()) == 0);
        assert(dec_val(s) == 0 * 10 + digit_val(digit_char(n)));
        assert(dec_val(s) == n);
    } else {
        lemma_render_u64_parses(n / 10);
        lemma_digit_char_val(n % 10);
        let r = render_u64(n);
        let ri = render_u64(n / 10);
        assert(r == ri.push(digit_char(n % 10)));
        assert(r.drop_last() =~= ri);
        assert(dec_val(r) == dec_val(ri) * 10 + digit_val(digit_char(n % 10)));
        assert(dec_val(r) == (n / 10) * 10 + n % 10);
        assert((n / 10) * 10 + n % 10 == n);
        assert(r[0] == ri[0]);
        assert(digit_char(0) == '0');
    }
}

/// A prefix of a digit string never exceeds the whole.
proof fn lemma_dec_val_prefix(s: Seq<char>, i: int)
    requires 0 <= i <= s.len(),
    ensures dec_val(s.take(i)) <= dec_val(s),
    decreases s.len() - i,
{
    if i == s.len() {
        assert(s.take(i) =~= s);
    } else {
        let t = s.take(i + 1);
        assert(t.drop_last() =~= s.take(i));
        assert(dec_val(t) == dec_val(s.take(i)) * 10 + digit_val(t.last()));
        assert(dec_val(s.take(i)) <= dec_val(t)) by (nonlinear_arith)
            requires dec_val(t) == dec_val(s.take(i)) * 10 + digit_val(t.last());
        lemma_dec_val_prefix(s, i + 1);
    }
}

/// Executable digit test.
pub fn is_digit_exec(c: char) -> (r: bool)
    ensures r == is_digit(c),
{
    let u = c as u32;
    48 <= u && u <= 57
}

/// Parse a canonical decimal numeral into a `u64`.
pub fn parse_u64_exec(v: &Vec<char>) -> (r: Option<u64>)
    ensures
        match r {
            Some(n) => parse_u64(v@) == Some(n),
            None => parse_u64(v@) is None,
        },
{
    let n = v.len();
    if n == 0 {
        return None;
    }
    if n > 1 && v[0] == '0' {
        return None;
    }
    let mut i: usize = 0;
    let mut acc: u64 = 0;
    while i < n
        invariant
            i <= n,
            n == v@.len(),
            n > 1 ==> v@[0] != '0',
            forall|j: int| 0 <= j < i ==> is_digit(#[trigger] v@[j]),
            acc == dec_val(v@.take(i as int)),
        decreases n - i,
    {
        let c = v[i];
        if !is_digit_exec(c) {
            return None;
        }
        let d: u64 = (c as u32 - 48) as u64;
        proof {
            assert(d == digit_val(c));
            assert(v@.take(i + 1 as int).drop_last() =~= v@.take(i as int));
        }
        if acc > (u64::MAX - d) / 10 {
            // the numeral overflows u64
            proof {
                assert(dec_val(v@.take(i + 1 as int)) == acc * 10 + d);
                assert(acc * 10 + d > u64::MAX) by (nonlinear_arith)
                    requires acc > (u64::MAX - d) / 10, d < 10;
                lemma_dec_val_prefix(v@, i + 1);
            }
            return None;
        }
        proof {
            assert(acc * 10 + d <= u64::MAX) by (nonlinear_arith)
                requires acc <= (u64::MAX - d) / 10, d < 10;
        }
        acc = acc * 10 + d;
        i = i + 1;
    }
    proof {
        assert(v@.take(i as int) =~= v@);
    }
    Some(acc)
}

/// Render `n` in decimal.
pub fn render_u64_exec(n: u64) -> (r: Vec<char>)
    ensures r@ == render_u64(n as nat),
    decreases n,
{
    if n < 10 {
        let mut v: Vec<char> = Vec::new();
        v.push(digit_char_exec(n));
        proof {
            assert(v@ =~= seq![digit_char(n as nat)]);
        }
        v
    } else {
        let mut v = render_u64_exec(n / 10);
        v.push(digit_char_exec(n % 10));
        v
    }
}

/// Executable digit character, matching `digit_char`.
pub fn digit_char_exec(d: u64) -> (r: char)
    requires d < 10,
    ensures r == digit_char(d as nat),
{
    if d == 0 { '0' } else if d == 1 { '1' } else if d == 2 { '2' }
    else if d == 3 { '3' } else if d == 4 { '4' } else if d == 5 { '5' }
    else if d == 6 { '6' } else if d == 7 { '7' } else if d == 8 { '8' }
    else { '9' }
}

} // verus!
