//! Character-sequence utilities shared by the codecs: occurrence
//! predicates for the reserved delimiters, splitting, joining and
//! trimming, each with an executable form proved against its
//! specification.
use vstd::prelude::*;
use vstd::string::StrSliceExecFns;
use vstd::string::StringExecFns;

verus! {

/// The two-character segment delimiter `__` occurs in `s` at `i`.
pub open spec fn sep2_at(s: Seq<char>, i: int) -> bool {
    &&& 0 <= i
    &&& i + 2 <= s.len()
    &&& s[i] == '_'
    &&& s[i + 1] == '_'
}

pub open spec fn has_sep2(s: Seq<char>) -> bool {
    exists|i: int| sep2_at(s, i)
}

/// `i` is the leftmost occurrence of `__` in `s`.
pub open spec fn is_first_sep2(s: Seq<char>, i: int) -> bool {
    &&& sep2_at(s, i)
    &&& forall|j: int| 0 <= j < i ==> !sep2_at(s, j)
}

/// `i` is the rightmost occurrence of `__` in `s`.
pub open spec fn is_last_sep2(s: Seq<char>, i: int) -> bool {
    &&& sep2_at(s, i)
    &&& forall|j: int| i < j ==> !sep2_at(s, j)
}

pub open spec fn first_sep2(s: Seq<char>) -> int {
    choose|i: int| is_first_sep2(s, i)
}

pub open spec fn last_sep2(s: Seq<char>) -> int {
    choose|i: int| is_last_sep2(s, i)
}

/// The three-character artist delimiter `_#_` occurs in `s` at `i`.
pub open spec fn sep3_at(s: Seq<char>, i: int) -> bool {
    &&& 0 <= i
    &&& i + 3 <= s.len()
    &&& s[i] == '_'
    &&& s[i + 1] == '#'
    &&& s[i + 2] == '_'
}

pub open spec fn has_sep3(s: Seq<char>) -> bool {
    exists|i: int| sep3_at(s, i)
}

pub proof fn lemma_first_sep2_exists(s: Seq<char>)
    requires
        has_sep2(s),
    ensures
        is_first_sep2(s, first_sep2(s)),
{
    let w = choose|i: int| sep2_at(s, i);
    lemma_first_sep2_from_witness(s, w);
    let f = choose|i: int| is_first_sep2(s, i);
    assert(is_first_sep2(s, f));
}

proof fn lemma_first_sep2_from_witness(s: Seq<char>, w: int)
    requires
        sep2_at(s, w),
    ensures
        exists|i: int| is_first_sep2(s, i),
    decreases w,
{
    if forall|j: int| 0 <= j < w ==> !sep2_at(s, j) {
        assert(is_first_sep2(s, w));
    } else {
        let j = choose|j: int| 0 <= j < w && sep2_at(s, j);
        lemma_first_sep2_from_witness(s, j);
    }
}

pub proof fn lemma_last_sep2_exists(s: Seq<char>)
    requires
        has_sep2(s),
    ensures
        is_last_sep2(s, last_sep2(s)),
{
    let w = choose|i: int| sep2_at(s, i);
    lemma_last_sep2_from_witness(s, w);
    let l = choose|i: int| is_last_sep2(s, i);
    assert(is_last_sep2(s, l));
}

proof fn lemma_last_sep2_from_witness(s: Seq<char>, w: int)
    requires
        sep2_at(s, w),
    ensures
        exists|i: int| is_last_sep2(s, i),
    decreases s.len() - w,
{
    if forall|j: int| j > w ==> !sep2_at(s, j) {
        assert(is_last_sep2(s, w));
    } else {
        let j = choose|j: int| j > w && sep2_at(s, j);
        lemma_last_sep2_from_witness(s, j);
    }
}

pub proof fn lemma_first_sep2_unique(s: Seq<char>, a: int, b: int)
    requires
        is_first_sep2(s, a),
        is_first_sep2(s, b),
    ensures
        a == b,
{
}

pub proof fn lemma_last_sep2_unique(s: Seq<char>, a: int, b: int)
    requires
        is_last_sep2(s, a),
        is_last_sep2(s, b),
    ensures
        a == b,
{
}

/// Leftmost occurrence of `__`, if any.
pub fn find_first_sep2(s: &str) -> (r: Option<usize>)
    ensures
        match r {
            Some(i) => is_first_sep2(s@, i as int),
            None => !has_sep2(s@),
        },
{
    let n = s.unicode_len();
    if n < 2 {
        return None;
    }
    let mut i: usize = 0;
    while i < n - 1
        invariant
            n == s@.len(),
            n >= 2,
            i <= n - 1,
            forall|j: int| 0 <= j < i ==> !sep2_at(s@, j),
        decreases n - 1 - i,
    {
        if s.get_char(i) == '_' && s.get_char(i + 1) == '_' {
            return Some(i);
        }
        i = i + 1;
    }
    None
}

/// Rightmost occurrence of `__`, if any.
pub fn find_last_sep2(s: &str) -> (r: Option<usize>)
    ensures
        match r {
            Some(i) => is_last_sep2(s@, i as int),
            None => !has_sep2(s@),
        },
{
    let n = s.unicode_len();
    if n < 2 {
        return None;
    }
    let mut i: usize = n - 1;
    while i > 0
        invariant
            n == s@.len(),
            n >= 2,
            i <= n - 1,
            forall|j: int| i <= j ==> !sep2_at(s@, j),
        decreases i,
    {
        i = i - 1;
        if s.get_char(i) == '_' && s.get_char(i + 1) == '_' {
            return Some(i);
        }
    }
    None
}

/// Whether `s` contains `__` anywhere.
pub fn contains_sep2(s: &str) -> (r: bool)
    ensures
        r == has_sep2(s@),
{
    match find_first_sep2(s) {
        Some(_) => true,
        None => false,
    }
}

/// Whether `s` contains `_#_` anywhere.
pub fn contains_sep3(s: &str) -> (r: bool)
    ensures
        r == has_sep3(s@),
{
    let n = s.unicode_len();
    if n < 3 {
        return false;
    }
    let mut i: usize = 0;
    while i < n - 2
        invariant
            n == s@.len(),
            n >= 3,
            i <= n - 2,
            forall|j: int| 0 <= j < i ==> !sep3_at(s@, j),
        decreases n - 2 - i,
    {
        if s.get_char(i) == '_' && s.get_char(i + 1) == '#' && s.get_char(i + 2) == '_' {
            assert(sep3_at(s@, i as int));
            return true;
        }
        i = i + 1;
    }
    false
}

/// Pieces of `s` after `start`, scanning for `_#_` from `pos`
/// leftmost-first and non-overlapping.
pub open spec fn split3_scan(s: Seq<char>, start: int, pos: int) -> Seq<Seq<char>>
    decreases s.len() - pos,
{
    if 0 <= pos && pos + 3 <= s.len() {
        if sep3_at(s, pos) {
            seq![s.subrange(start, pos)] + split3_scan(s, pos + 3, pos + 3)
        } else {
            split3_scan(s, start, pos + 1)
        }
    } else {
        seq![s.subrange(start, s.len() as int)]
    }
}

/// `s` split on the artist delimiter `_#_`; never empty.
pub open spec fn split_sep3(s: Seq<char>) -> Seq<Seq<char>> {
    split3_scan(s, 0, 0)
}

/// Pieces of `s` after `start`, scanning for the single character `c`
/// from `pos`.
pub open spec fn split1_scan(s: Seq<char>, c: char, start: int, pos: int) -> Seq<Seq<char>>
    decreases s.len() - pos,
{
    if 0 <= pos && pos + 1 <= s.len() {
        if s[pos] == c {
            seq![s.subrange(start, pos)] + split1_scan(s, c, pos + 1, pos + 1)
        } else {
            split1_scan(s, c, start, pos + 1)
        }
    } else {
        seq![s.subrange(start, s.len() as int)]
    }
}

/// `s` split on the character `c`; never empty.
pub open spec fn split_char_seq(s: Seq<char>, c: char) -> Seq<Seq<char>> {
    split1_scan(s, c, 0, 0)
}

/// Splits on `_#_`, leftmost-first and non-overlapping.
pub fn split_on_sep3(s: &str) -> (r: Vec<String>)
    ensures
        r.deep_view() == split_sep3(s@),
{
    let n = s.unicode_len();
    let mut r: Vec<String> = Vec::new();
    let mut start: usize = 0;
    let mut pos: usize = 0;
    while n >= 3 && pos < n - 2
        invariant
            n == s@.len(),
            start <= pos <= n,
            split_sep3(s@) == r.deep_view() + split3_scan(s@, start as int, pos as int),
        decreases n - pos,
    {
        if s.get_char(pos) == '_' && s.get_char(pos + 1) == '#' && s.get_char(pos + 2) == '_' {
            assert(sep3_at(s@, pos as int));
            let piece = String::from_str(s.substring_char(start, pos));
            let ghost old_r = r.deep_view();
            r.push(piece);
            assert(r.deep_view() =~~= old_r.push(s@.subrange(start as int, pos as int)));
            assert(old_r.push(s@.subrange(start as int, pos as int)) =~~= old_r + seq![
                s@.subrange(start as int, pos as int),
            ]);
            start = pos + 3;
            pos = pos + 3;
        } else {
            assert(!sep3_at(s@, pos as int));
            pos = pos + 1;
        }
    }
    assert(split3_scan(s@, start as int, pos as int) =~~= seq![
        s@.subrange(start as int, n as int),
    ]);
    let piece = String::from_str(s.substring_char(start, n));
    let ghost old_r = r.deep_view();
    r.push(piece);
    assert(r.deep_view() =~~= old_r + seq![s@.subrange(start as int, n as int)]);
    r
}

/// Splits on the character `c`.
pub fn split_on_char(s: &str, c: char) -> (r: Vec<String>)
    ensures
        r.deep_view() == split_char_seq(s@, c),
{
    let n = s.unicode_len();
    let mut r: Vec<String> = Vec::new();
    let mut start: usize = 0;
    let mut pos: usize = 0;
    while pos < n
        invariant
            n == s@.len(),
            start <= pos <= n,
            split_char_seq(s@, c) == r.deep_view() + split1_scan(s@, c, start as int, pos as int),
        decreases n - pos,
    {
        if s.get_char(pos) == c {
            let piece = String::from_str(s.substring_char(start, pos));
            let ghost old_r = r.deep_view();
            r.push(piece);
            assert(r.deep_view() =~~= old_r.push(s@.subrange(start as int, pos as int)));
            assert(old_r.push(s@.subrange(start as int, pos as int)) =~~= old_r + seq![
                s@.subrange(start as int, pos as int),
            ]);
            start = pos + 1;
            pos = pos + 1;
        } else {
            pos = pos + 1;
        }
    }
    assert(split1_scan(s@, c, start as int, pos as int) =~~= seq![
        s@.subrange(start as int, n as int),
    ]);
    let piece = String::from_str(s.substring_char(start, n));
    let ghost old_r = r.deep_view();
    r.push(piece);
    assert(r.deep_view() =~~= old_r + seq![s@.subrange(start as int, n as int)]);
    r
}

/// `parts` joined with the separator `sep`.
pub open spec fn join_with(parts: Seq<Seq<char>>, sep: Seq<char>) -> Seq<char>
    decreases parts.len(),
{
    if parts.len() == 0 {
        Seq::empty()
    } else if parts.len() == 1 {
        parts[0]
    } else {
        parts[0] + sep + join_with(parts.drop_first(), sep)
    }
}

proof fn lemma_join_with_push(parts: Seq<Seq<char>>, sep: Seq<char>, x: Seq<char>)
    ensures
        join_with(parts.push(x), sep) == if parts.len() == 0 {
            x
        } else {
            join_with(parts, sep) + sep + x
        },
    decreases parts.len(),
{
    if parts.len() == 0 {
        assert(parts.push(x).len() == 1);
        assert(parts.push(x)[0] == x);
    } else if parts.len() == 1 {
        assert(parts.push(x).drop_first() =~~= seq![x]);
        assert(parts.push(x)[0] == parts[0]);
        assert(seq![x].len() == 1);
        assert(join_with(seq![x], sep) == seq![x][0]);
        assert(join_with(parts.push(x), sep) == parts[0] + sep + x);
    } else {
        assert(parts.push(x).drop_first() =~~= parts.drop_first().push(x));
        lemma_join_with_push(parts.drop_first(), sep, x);
        assert(join_with(parts, sep) + sep + x =~= parts[0] + sep + (join_with(
            parts.drop_first(),
            sep,
        ) + sep + x));
    }
}

/// Joins the strings of `v` with the separator `sep`.
pub fn join_strings(v: &Vec<String>, sep: &str) -> (r: String)
    ensures
        r@ == join_with(v.deep_view(), sep@),
{
    let mut r = String::new();
    let mut i: usize = 0;
    while i < v.len()
        invariant
            i <= v.len(),
            r@ == join_with(v.deep_view().take(i as int), sep@),
        decreases v.len() - i,
    {
        if i > 0 {
            r.append(sep);
        }
        r.append(v[i].as_str());
        proof {
            assert(v.deep_view().take(i + 1) =~~= v.deep_view().take(i as int).push(
                v.deep_view()[i as int],
            ));
            lemma_join_with_push(v.deep_view().take(i as int), sep@, v.deep_view()[i as int]);
        }
        i = i + 1;
    }
    proof {
        assert(v.deep_view().take(v.len() as int) =~~= v.deep_view());
    }
    r
}

/// The delimiter `__` as a sequence.
pub open spec fn sep2_seq() -> Seq<char> {
    seq!['_', '_']
}

/// The delimiter `_#_` as a sequence.
pub open spec fn sep3_seq() -> Seq<char> {
    seq!['_', '#', '_']
}

/// `s` ends with `_#`, the prefix of the artist delimiter.
pub open spec fn ends_sep3_prefix(s: Seq<char>) -> bool {
    s.len() >= 2 && s[s.len() - 2] == '_' && s[s.len() - 1] == '#'
}

proof fn lemma_scan_no_match(s: Seq<char>, start: int, pos: int)
    requires
        0 <= start <= pos <= s.len(),
        forall|j: int| pos <= j ==> !sep3_at(s, j),
    ensures
        split3_scan(s, start, pos) == seq![s.subrange(start, s.len() as int)],
    decreases s.len() - pos,
{
    if pos + 3 <= s.len() {
        assert(!sep3_at(s, pos));
        lemma_scan_no_match(s, start, pos + 1);
    }
}

proof fn lemma_scan_to_match(s: Seq<char>, start: int, pos: int, m: int)
    requires
        0 <= start <= pos <= m,
        sep3_at(s, m),
        forall|j: int| pos <= j < m ==> !sep3_at(s, j),
    ensures
        split3_scan(s, start, pos) == seq![s.subrange(start, m)] + split3_scan(s, m + 3, m + 3),
    decreases m - pos,
{
    if pos == m {
    } else {
        assert(!sep3_at(s, pos));
        lemma_scan_to_match(s, start, pos + 1, m);
    }
}

proof fn lemma_scan_shift(s: Seq<char>, k: int, start: int, pos: int)
    requires
        0 <= k <= start <= pos <= s.len(),
    ensures
        split3_scan(s, start, pos) == split3_scan(s.skip(k), start - k, pos - k),
    decreases s.len() - pos,
{
    let t = s.skip(k);
    if pos + 3 <= s.len() {
        assert(sep3_at(s, pos) <==> sep3_at(t, pos - k)) by {
            assert(t.len() == s.len() - k);
            if pos + 3 <= s.len() {
                assert(t[pos - k] == s[pos]);
                assert(t[pos - k + 1] == s[pos + 1]);
                assert(t[pos - k + 2] == s[pos + 2]);
            }
        }
        if sep3_at(s, pos) {
            lemma_scan_shift(s, k, pos + 3, pos + 3);
            assert(s.subrange(start, pos) =~= t.subrange(start - k, pos - k));
            assert(split3_scan(s, start, pos) =~~= split3_scan(t, start - k, pos - k));
        } else {
            lemma_scan_shift(s, k, start, pos + 1);
        }
    } else {
        assert(s.subrange(start, s.len() as int) =~= t.subrange(start - k, t.len() as int));
        assert(split3_scan(s, start, pos) =~~= split3_scan(t, start - k, pos - k));
    }
}

/// Splitting on `_#_` undoes joining with `_#_`, provided no piece
/// contains the delimiter and no piece except the last ends with `_#`.
pub proof fn lemma_split_join_sep3(parts: Seq<Seq<char>>)
    requires
        parts.len() >= 1,
        forall|i: int| 0 <= i < parts.len() ==> !has_sep3(#[trigger] parts[i]),
        forall|i: int| 0 <= i < parts.len() - 1 ==> !ends_sep3_prefix(#[trigger] parts[i]),
    ensures
        split_sep3(join_with(parts, sep3_seq())) == parts,
    decreases parts.len(),
{
    let j = join_with(parts, sep3_seq());
    if parts.len() == 1 {
        assert(j == parts[0]);
        assert forall|i: int| !sep3_at(j, i) by {
            if sep3_at(j, i) {
                assert(has_sep3(parts[0]));
            }
        }
        lemma_scan_no_match(j, 0, 0);
        assert(j.subrange(0, j.len() as int) =~= j);
        assert(split_sep3(j) =~~= parts);
    } else {
        let p0 = parts[0];
        let rest = join_with(parts.drop_first(), sep3_seq());
        let n0 = p0.len() as int;
        assert(j == p0 + sep3_seq() + rest);
        assert(j.len() == n0 + 3 + rest.len());
        assert(j[n0] == '_' && j[n0 + 1] == '#' && j[n0 + 2] == '_');
        assert(sep3_at(j, n0));
        assert forall|idx: int| 0 <= idx < n0 implies !sep3_at(j, idx) by {
            if sep3_at(j, idx) {
                if idx + 3 <= n0 {
                    assert(p0[idx] == j[idx] && p0[idx + 1] == j[idx + 1] && p0[idx + 2] == j[idx
                        + 2]);
                    assert(sep3_at(p0, idx));
                    assert(has_sep3(p0));
                } else if idx == n0 - 2 {
                    assert(p0[idx] == j[idx] && p0[idx + 1] == j[idx + 1]);
                    assert(ends_sep3_prefix(p0));
                } else {
                    assert(idx == n0 - 1);
                    assert(j[idx + 1] == '_');
                    assert(j[idx + 1] == '#');
                }
            }
        }
        lemma_scan_to_match(j, 0, 0, n0);
        lemma_scan_shift(j, n0 + 3, n0 + 3, n0 + 3);
        assert(j.skip(n0 + 3) =~= rest);
        assert forall|i: int| 0 <= i < parts.drop_first().len() implies !has_sep3(
            #[trigger] parts.drop_first()[i],
        ) by {
            assert(parts.drop_first()[i] == parts[i + 1]);
        }
        assert forall|i: int| 0 <= i < parts.drop_first().len() - 1 implies !ends_sep3_prefix(
            #[trigger] parts.drop_first()[i],
        ) by {
            assert(parts.drop_first()[i] == parts[i + 1]);
        }
        lemma_split_join_sep3(parts.drop_first());
        assert(j.subrange(0, n0) =~= p0);
        assert(split_sep3(j) == seq![p0] + parts.drop_first());
        assert(seq![p0] + parts.drop_first() =~~= parts);
    }
}

/// A character the trim operation removes.
pub open spec fn is_space(c: char) -> bool {
    c == ' ' || c == '\t' || c == '\n' || c == '\r'
}

pub open spec fn trim_leading(s: Seq<char>) -> Seq<char>
    decreases s.len(),
{
    if s.len() > 0 && is_space(s[0]) {
        trim_leading(s.drop_first())
    } else {
        s
    }
}

pub open spec fn trim_trailing(s: Seq<char>) -> Seq<char>
    decreases s.len(),
{
    if s.len() > 0 && is_space(s[s.len() - 1]) {
        trim_trailing(s.drop_last())
    } else {
        s
    }
}

/// `s` with leading and trailing spaces removed.
pub open spec fn trimmed(s: Seq<char>) -> Seq<char> {
    trim_trailing(trim_leading(s))
}

fn is_space_at(s: &str, i: usize) -> (r: bool)
    requires
        i < s@.len(),
    ensures
        r == is_space(s@[i as int]),
{
    let c = s.get_char(i);
    c == ' ' || c == '\t' || c == '\n' || c == '\r'
}

/// Removes leading and trailing spaces.
pub fn trim_str(s: &str) -> (r: String)
    ensures
        r@ == trimmed(s@),
{
    let n = s.unicode_len();
    let mut a: usize = 0;
    proof {
        assert(s@.skip(0) =~= s@);
    }
    while a < n && is_space_at(s, a)
        invariant
            n == s@.len(),
            a <= n,
            trim_leading(s@) == trim_leading(s@.skip(a as int)),
        decreases n - a,
    {
        proof {
            let t = s@.skip(a as int);
            assert(t[0] == s@[a as int]);
            assert(is_space(t[0]));
            assert(t.drop_first() =~= s@.skip(a as int + 1));
        }
        a = a + 1;
    }
    proof {
        let t = s@.skip(a as int);
        if a < n {
            assert(t[0] == s@[a as int]);
            assert(!is_space(t[0]));
        }
        assert(trim_leading(t) == t);
        assert(t =~= s@.subrange(a as int, n as int));
    }
    let mut b: usize = n;
    while b > a && is_space_at(s, b - 1)
        invariant
            n == s@.len(),
            a <= b <= n,
            trim_leading(s@) == s@.subrange(a as int, n as int),
            trim_trailing(s@.subrange(a as int, n as int)) == trim_trailing(
                s@.subrange(a as int, b as int),
            ),
        decreases b,
    {
        proof {
            let u = s@.subrange(a as int, b as int);
            assert(u[u.len() - 1] == s@[b - 1]);
            assert(is_space(u[u.len() - 1]));
            assert(u.drop_last() =~= s@.subrange(a as int, b as int - 1));
        }
        b = b - 1;
    }
    proof {
        let u = s@.subrange(a as int, b as int);
        if b > a {
            assert(u[u.len() - 1] == s@[b - 1]);
            assert(!is_space(u[u.len() - 1]));
        }
        assert(trim_trailing(u) == u);
    }
    String::from_str(s.substring_char(a, b))
}

} // verus!
