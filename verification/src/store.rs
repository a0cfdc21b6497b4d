//! Artifact store, pure part: deriving the extension-qualified paths
//! that one song's artifacts share, and collecting the outcomes of a
//! best-effort deletion. The filesystem calls themselves stay with the
//! caller, which hands their outcomes back in.
use vstd::prelude::*;
use vstd::string::StrSliceExecFns;
use vstd::string::StringExecFns;

verus! {

/// The character `c` occurs in `s` at `i` and nowhere later.
pub open spec fn is_last_char_at(s: Seq<char>, c: char, i: int) -> bool {
    &&& 0 <= i < s.len()
    &&& s[i] == c
    &&& forall|j: int| i < j < s.len() ==> s[j] != c
}

/// Rightmost occurrence of `c`, if any.
pub fn find_last_char(s: &str, c: char) -> (r: Option<usize>)
    ensures
        match r {
            Some(i) => is_last_char_at(s@, c, i as int),
            None => forall|j: int| 0 <= j < s@.len() ==> s@[j] != c,
        },
{
    let n = s.unicode_len();
    let mut i: usize = n;
    while i > 0
        invariant
            n == s@.len(),
            i <= n,
            forall|j: int| i <= j < s@.len() ==> s@[j] != c,
        decreases i,
    {
        i = i - 1;
        if s.get_char(i) == c {
            return Some(i);
        }
    }
    None
}

/// The extension-qualified path of one artifact: the base path, a
/// dot, and the extension.
pub open spec fn spec_artifact_path(base: Seq<char>, ext: Seq<char>) -> Seq<char> {
    base + seq!['.'] + ext
}

/// Appends `.ext` to a base path that carries no extension.
pub fn artifact_path(base: &str, ext: &str) -> (r: String)
    ensures
        r@ == spec_artifact_path(base@, ext@),
{
    let mut out = String::from_str(base);
    out.append(".");
    out.append(ext);
    proof {
        reveal_strlit(".");
        assert("."@ =~= seq!['.']);
    }
    out
}

/// The stem of a path: everything before the dot that starts the final
/// component's extension; the whole path when that component has no
/// dot.
pub open spec fn spec_path_stem(p: Seq<char>) -> Seq<char> {
    if exists|i: int| is_last_char_at(p, '.', i) {
        let d = choose|i: int| is_last_char_at(p, '.', i);
        if exists|i: int| is_last_char_at(p, '/', i) {
            let sl = choose|i: int| is_last_char_at(p, '/', i);
            if sl < d {
                p.take(d)
            } else {
                p
            }
        } else {
            p.take(d)
        }
    } else {
        p
    }
}

/// The co-located sibling of `path` under another extension: the stem
/// plus `.ext`.
pub open spec fn spec_sibling_path(p: Seq<char>, ext: Seq<char>) -> Seq<char> {
    spec_path_stem(p) + seq!['.'] + ext
}

proof fn lemma_last_char_unique(s: Seq<char>, c: char, a: int, b: int)
    requires
        is_last_char_at(s, c, a),
        is_last_char_at(s, c, b),
    ensures
        a == b,
{
}

/// Derives the sibling path of `path` under the extension `ext`,
/// replacing the extension of the final component when it has one.
pub fn sibling_path(path: &str, ext: &str) -> (r: String)
    ensures
        r@ == spec_sibling_path(path@, ext@),
{
    let n = path.unicode_len();
    let dot = find_last_char(path, '.');
    let slash = find_last_char(path, '/');
    let stem: &str = match dot {
        Some(d) => {
            let cut = match slash {
                Some(sl) => sl < d,
                None => true,
            };
            if cut {
                path.substring_char(0, d)
            } else {
                path
            }
        },
        None => path,
    };
    proof {
        if exists|i: int| is_last_char_at(path@, '.', i) {
            let d0 = choose|i: int| is_last_char_at(path@, '.', i);
            lemma_last_char_unique(path@, '.', d0, dot.unwrap() as int);
            if exists|i: int| is_last_char_at(path@, '/', i) {
                let s0 = choose|i: int| is_last_char_at(path@, '/', i);
                lemma_last_char_unique(path@, '/', s0, slash.unwrap() as int);
            }
        }
        assert(stem@ == spec_path_stem(path@));
    }
    let mut out = String::from_str(stem);
    out.append(".");
    out.append(ext);
    proof {
        reveal_strlit(".");
        assert("."@ =~= seq!['.']);
    }
    out
}

/// The artifact paths deletion visits for one base path: audio, cover
/// and both lyric forms.
pub open spec fn spec_delete_targets(base: Seq<char>) -> Seq<Seq<char>> {
    seq![
        spec_artifact_path(base, "mp3"@),
        spec_artifact_path(base, "jpg"@),
        spec_artifact_path(base, "txt"@),
        spec_artifact_path(base, "lrc"@),
    ]
}

/// Lists every co-located artifact path of one song, in the order
/// deletion visits them.
pub fn delete_targets(base: &str) -> (r: Vec<String>)
    ensures
        r.deep_view() == spec_delete_targets(base@),
{
    let mut r: Vec<String> = Vec::new();
    r.push(artifact_path(base, "mp3"));
    r.push(artifact_path(base, "jpg"));
    r.push(artifact_path(base, "txt"));
    r.push(artifact_path(base, "lrc"));
    proof {
        assert(r.deep_view() =~~= spec_delete_targets(base@));
    }
    r
}

/// The paths whose removal failed, in order.
pub open spec fn spec_failed_paths(s: Seq<(Seq<char>, bool)>) -> Seq<Seq<char>>
    decreases s.len(),
{
    if s.len() == 0 {
        Seq::empty()
    } else {
        let rest = spec_failed_paths(s.drop_last());
        if !s.last().1 {
            rest.push(s.last().0)
        } else {
            rest
        }
    }
}

/// Collects the paths whose removal failed out of per-path outcomes
/// `(path, removed)`: deletion is best-effort, so failures are
/// reported, never raised.
pub fn collect_failed_paths(attempts: &Vec<(String, bool)>) -> (r: Vec<String>)
    ensures
        r.deep_view() == spec_failed_paths(attempts.deep_view()),
{
    let mut r: Vec<String> = Vec::new();
    let mut i: usize = 0;
    proof {
        assert(attempts.deep_view().take(0) =~~= Seq::<(Seq<char>, bool)>::empty());
        assert(r.deep_view() =~~= Seq::<Seq<char>>::empty());
    }
    while i < attempts.len()
        invariant
            i <= attempts.len(),
            attempts.deep_view().len() == attempts@.len(),
            r.deep_view() =~~= spec_failed_paths(attempts.deep_view().take(i as int)),
        decreases attempts.len() - i,
    {
        proof {
            assert(attempts.deep_view().take(i + 1).drop_last() =~~= attempts.deep_view().take(
                i as int,
            ));
            assert(attempts.deep_view().take(i + 1).last() == attempts.deep_view()[i as int]);
            assert(attempts.deep_view()[i as int].1 == attempts@[i as int].1);
            assert(attempts.deep_view()[i as int].0 == attempts@[i as int].0@);
        }
        if !attempts[i].1 {
            let ghost old_r = r.deep_view();
            let p = attempts[i].0.clone();
            r.push(p);
            proof {
                assert(r.deep_view() =~~= old_r.push(attempts.deep_view()[i as int].0));
            }
        }
        i = i + 1;
    }
    proof {
        assert(attempts.deep_view().take(attempts@.len() as int) =~~= attempts.deep_view());
    }
    r
}

} // verus!
