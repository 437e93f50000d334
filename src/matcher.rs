//! The blacklist matcher: patterns compiled once, then asked about relative paths.
use vstd::prelude::*;
use vstd::string::*;
use crate::glob::{
    add_glob, build_set, builder_globs, compile_glob, empty_set, new_builder, set_globs,
    set_is_match, any_glob_matches, glob_accepts, is_plain_pattern, set_builds,
};

verus! {

/// A compiled blacklist. Its view is the list of glob texts it holds.
pub struct PathMatcher {
    set: globset::GlobSet,
}

impl View for PathMatcher {
    type V = Seq<Seq<char>>;

    closed spec fn view(&self) -> Seq<Seq<char>> {
        set_globs(self.set)
    }
}

/// The texts of a list of strings.
pub open spec fn texts(v: Seq<String>) -> Seq<Seq<char>> {
    v.map_values(|s: String| s@)
}

/// A pattern as the matcher holds it: the pattern itself when it is a valid glob,
/// else the pattern under a recursive wildcard, else nothing.
pub open spec fn normalize_pattern(p: Seq<char>) -> Seq<Seq<char>> {
    if glob_accepts(p) {
        seq![p]
    } else if glob_accepts("**/"@ + p) {
        seq!["**/"@ + p]
    } else {
        Seq::empty()
    }
}

/// The glob texts that a list of blacklist patterns compiles to, in order.
pub open spec fn normalized(pats: Seq<Seq<char>>) -> Seq<Seq<char>>
    decreases pats.len(),
{
    if pats.len() == 0 {
        Seq::empty()
    } else {
        normalized(pats.drop_last()) + normalize_pattern(pats.last())
    }
}

/// Every pattern of the list is free of glob syntax.
pub open spec fn all_plain(pats: Seq<Seq<char>>) -> bool {
    forall|k: int| 0 <= k < pats.len() ==> is_plain_pattern(#[trigger] pats[k])
}

/// A path segment that names an entry: not empty, not `.` and not `..`.
pub open spec fn is_normal_segment(s: Seq<char>) -> bool {
    s.len() > 0 && s != seq!['.'] && s != seq!['.', '.']
}

pub open spec fn emit_segment(s: Seq<char>) -> Seq<Seq<char>> {
    if is_normal_segment(s) {
        seq![s]
    } else {
        Seq::empty()
    }
}

/// The named segments of `p` from position `i` on, where the current segment
/// began at `start`.
pub open spec fn segments_from(p: Seq<char>, start: int, i: int) -> Seq<Seq<char>>
    decreases p.len() - i,
{
    if i >= p.len() {
        emit_segment(p.subrange(start, p.len() as int))
    } else if p[i] == '/' {
        emit_segment(p.subrange(start, i)) + segments_from(p, i + 1, i + 1)
    } else {
        segments_from(p, start, i + 1)
    }
}

/// The named components of a `/`-separated relative path, in order.
pub open spec fn path_components(p: Seq<char>) -> Seq<Seq<char>> {
    segments_from(p, 0, 0)
}

/// True when some glob matches some segment of the list on its own.
pub open spec fn any_segment_matches(globs: Seq<Seq<char>>, segs: Seq<Seq<char>>) -> bool {
    exists|j: int| 0 <= j < segs.len() && any_glob_matches(globs, #[trigger] segs[j])
}

/// A relative path is excluded when the whole path, or one of its components on
/// its own, matches a glob of the matcher.
pub open spec fn is_excluded(globs: Seq<Seq<char>>, p: Seq<char>) -> bool {
    any_glob_matches(globs, p) || any_segment_matches(globs, path_components(p))
}

/// Some component of the path is, letter for letter, a glob of the matcher that
/// has no glob syntax.
pub open spec fn has_plain_component(globs: Seq<Seq<char>>, p: Seq<char>) -> bool {
    exists|j: int, k: int|
        0 <= j < path_components(p).len() && 0 <= k < globs.len() && is_plain_pattern(
            #[trigger] globs[k],
        ) && globs[k] == #[trigger] path_components(p)[j]
}

proof fn lemma_any_segment_concat(globs: Seq<Seq<char>>, a: Seq<Seq<char>>, b: Seq<Seq<char>>)
    ensures
        any_segment_matches(globs, a + b) == (any_segment_matches(globs, a)
            || any_segment_matches(globs, b)),
{
    let ab = a + b;
    if any_segment_matches(globs, ab) {
        let j = choose|j: int| 0 <= j < ab.len() && any_glob_matches(globs, #[trigger] ab[j]);
        if j < a.len() {
            assert(ab[j] == a[j]);
        } else {
            assert(ab[j] == b[j - a.len()]);
        }
    }
    if any_segment_matches(globs, a) {
        let j = choose|j: int| 0 <= j < a.len() && any_glob_matches(globs, #[trigger] a[j]);
        assert(ab[j] == a[j]);
    }
    if any_segment_matches(globs, b) {
        let j = choose|j: int| 0 <= j < b.len() && any_glob_matches(globs, #[trigger] b[j]);
        assert(ab[j + a.len()] == b[j]);
    }
}


/// Compiles a blacklist. A pattern that is not a valid glob is taken as a name to
/// exclude at any depth; one that fails even so is dropped. When the set as a whole
/// cannot be compiled, the matcher excludes nothing.
pub fn build_glob_set(patterns: &Vec<String>) -> (m: PathMatcher)
    ensures
        m@ == if set_builds(normalized(texts(patterns@))) {
            normalized(texts(patterns@))
        } else {
            Seq::<Seq<char>>::empty()
        },
        all_plain(texts(patterns@)) ==> set_builds(normalized(texts(patterns@))),
        set_builds(normalized(texts(patterns@))) ==> forall|i: int|
            0 <= i < patterns@.len() && is_plain_pattern(#[trigger] patterns@[i]@) ==> m@.contains(
                patterns@[i]@,
            ),
{
    let ghost pats = texts(patterns@);
    let mut builder = new_builder();
    let mut i: usize = 0;
    while i < patterns.len()
        invariant
            i <= patterns@.len(),
            pats == texts(patterns@),
            builder_globs(builder) == normalized(pats.subrange(0, i as int)),
            forall|j: int|
                0 <= j < i && is_plain_pattern(#[trigger] patterns@[j]@) ==> builder_globs(
                    builder,
                ).contains(patterns@[j]@),
            all_plain(pats.subrange(0, i as int)) ==> all_plain(builder_globs(builder)),
        decreases patterns@.len() - i,
    {
        let ghost before = builder_globs(builder);
        let pattern = patterns[i].as_str();
        assert(pats.subrange(0, i + 1).drop_last() =~= pats.subrange(0, i as int));
        assert(pats[i as int] == patterns@[i as int]@);
        match compile_glob(pattern) {
            Ok(glob) => {
                add_glob(&mut builder, glob);
                assert(builder_globs(builder) =~= before + normalize_pattern(pats[i as int]));
            },
            Err(_) => {
                let mut wide = String::from_str("**/");
                wide.append(pattern);
                match compile_glob(wide.as_str()) {
                    Ok(glob) => {
                        add_glob(&mut builder, glob);
                        assert(builder_globs(builder) =~= before + normalize_pattern(pats[i as int]));
                    },
                    Err(_) => {
                        assert(builder_globs(builder) =~= before + normalize_pattern(pats[i as int]));
                    },
                }
            },
        }
        assert forall|j: int|
            0 <= j < i + 1 && is_plain_pattern(#[trigger] patterns@[j]@) implies builder_globs(
                builder,
            ).contains(patterns@[j]@) by {
            if j < i {
                let k = choose|k: int| 0 <= k < before.len() && before[k] == patterns@[j]@;
                assert(builder_globs(builder)[k] == patterns@[j]@);
            } else {
                assert(builder_globs(builder)[before.len() as int] == patterns@[j]@);
            }
        }
        proof {
            if all_plain(pats.subrange(0, i + 1)) {
                assert(pats.subrange(0, i + 1)[i as int] == pats[i as int]);
                assert(all_plain(pats.subrange(0, i as int))) by {
                    assert forall|k: int| 0 <= k < i implies is_plain_pattern(
                        #[trigger] pats.subrange(0, i as int)[k],
                    ) by {
                        assert(pats.subrange(0, i as int)[k] == pats.subrange(0, i + 1)[k]);
                    }
                }
                assert forall|k: int| 0 <= k < builder_globs(builder).len() implies is_plain_pattern(
                    #[trigger] builder_globs(builder)[k],
                ) by {
                    if k < before.len() {
                        assert(builder_globs(builder)[k] == before[k]);
                    }
                }
            }
        }
        i = i + 1;
    }
    assert(pats.subrange(0, patterns@.len() as int) =~= pats);
    match build_set(&builder) {
        Ok(set) => PathMatcher { set },
        Err(_) => PathMatcher { set: empty_set() },
    }
}

/// Whether a segment names an entry: not empty, not `.` and not `..`.
fn segment_is_normal(s: &str) -> (r: bool)
    ensures
        r == is_normal_segment(s@),
{
    let n = s.unicode_len();
    if n == 0 {
        false
    } else if n == 1 {
        let c = s.get_char(0);
        assert(seq!['.'][0] == '.');
        if c == '.' {
            assert(s@ =~= seq!['.']);
        }
        c != '.'
    } else if n == 2 {
        let c0 = s.get_char(0);
        let c1 = s.get_char(1);
        assert(seq!['.', '.'][0] == '.' && seq!['.', '.'][1] == '.');
        if c0 == '.' && c1 == '.' {
            assert(s@ =~= seq!['.', '.']);
        }
        !(c0 == '.' && c1 == '.')
    } else {
        true
    }
}

/// Whether the blacklist excludes a path given relative to its source root: the
/// whole path, or any one of its components, matches.
pub fn is_blacklisted(relative_path: &str, matcher: &PathMatcher) -> (r: bool)
    ensures
        r == is_excluded(matcher@, relative_path@),
        has_plain_component(matcher@, relative_path@) ==> r,
{
    let ghost p = relative_path@;
    let ghost globs = matcher@;
    if set_is_match(&matcher.set, relative_path) {
        return true;
    }
    assert(segments_from(p, 0, 0) == path_components(p));
    let n = relative_path.unicode_len();
    let mut start: usize = 0;
    let mut i: usize = 0;
    while i < n
        invariant
            n == p.len(),
            p == relative_path@,
            globs == matcher@,
            start <= i <= n,
            any_segment_matches(globs, path_components(p)) == any_segment_matches(
                globs,
                segments_from(p, start as int, i as int),
            ),
            forall|c: Seq<char>|
                #![trigger path_components(p).contains(c), globs.contains(c)]
                path_components(p).contains(c) && globs.contains(c) && is_plain_pattern(c)
                    ==> segments_from(p, start as int, i as int).contains(c),
        decreases n - i,
    {
        if relative_path.get_char(i) == '/' {
            let seg = relative_path.substring_char(start, i);
            proof {
                lemma_any_segment_concat(
                    globs,
                    emit_segment(seg@),
                    segments_from(p, i + 1, i + 1),
                );
            }
            if segment_is_normal(seg) && set_is_match(&matcher.set, seg) {
                assert(emit_segment(seg@)[0] == seg@);
                return true;
            }
            proof {
                let a = emit_segment(seg@);
                let b = segments_from(p, i + 1, i + 1);
                assert forall|c: Seq<char>|
                    #![trigger path_components(p).contains(c), globs.contains(c)]
                    path_components(p).contains(c) && globs.contains(c) && is_plain_pattern(c)
                        implies b.contains(c) by {
                    assert((a + b).contains(c));
                    let j = choose|j: int| 0 <= j < (a + b).len() && (a + b)[j] == c;
                    if j < a.len() {
                        assert(a[j] == seg@);
                        let k = choose|k: int| 0 <= k < globs.len() && globs[k] == c;
                        assert(globs[k] == seg@);
                    } else {
                        assert(b[j - a.len()] == c);
                    }
                }
            }
            start = i + 1;
        }
        i = i + 1;
    }
    let seg = relative_path.substring_char(start, n);
    if segment_is_normal(seg) && set_is_match(&matcher.set, seg) {
        assert(emit_segment(seg@)[0] == seg@);
        return true;
    }
    proof {
        assert forall|c: Seq<char>|
            #![trigger path_components(p).contains(c), globs.contains(c)]
            path_components(p).contains(c) && globs.contains(c) && is_plain_pattern(c)
                implies false by {
            let a = emit_segment(seg@);
            assert(a.contains(c));
            let k = choose|k: int| 0 <= k < globs.len() && globs[k] == c;
            assert(globs[k] == seg@);
        }
        if has_plain_component(globs, p) {
            let (j, k) = choose|j: int, k: int|
                0 <= j < path_components(p).len() && 0 <= k < globs.len() && is_plain_pattern(
                    #[trigger] globs[k],
                ) && globs[k] == #[trigger] path_components(p)[j];
            assert(path_components(p).contains(globs[k]));
            assert(globs.contains(globs[k]));
        }
    }
    false
}

/// Compiling two pattern lists joined together gives the globs of each, in order.
pub proof fn lemma_normalized_concat(a: Seq<Seq<char>>, b: Seq<Seq<char>>)
    ensures
        normalized(a + b) == normalized(a) + normalized(b),
    decreases b.len(),
{
    if b.len() == 0 {
        assert(a + b =~= a);
        assert(normalized(b) =~= Seq::<Seq<char>>::empty());
        assert(normalized(a) + normalized(b) =~= normalized(a));
    } else {
        assert((a + b).drop_last() =~= a + b.drop_last());
        lemma_normalized_concat(a, b.drop_last());
        assert(normalized(a + b) =~= normalized(a) + normalized(b));
    }
}

/// A glob list matches a path exactly when one of its two parts does.
pub proof fn lemma_any_glob_concat(a: Seq<Seq<char>>, b: Seq<Seq<char>>, path: Seq<char>)
    ensures
        any_glob_matches(a + b, path) == (any_glob_matches(a, path) || any_glob_matches(b, path)),
{
    let ab = a + b;
    if any_glob_matches(ab, path) {
        let k = choose|k: int| 0 <= k < ab.len() && crate::glob::glob_matches(#[trigger] ab[k], path);
        if k < a.len() {
            assert(ab[k] == a[k]);
        } else {
            assert(ab[k] == b[k - a.len()]);
        }
    }
    if any_glob_matches(a, path) {
        let k = choose|k: int| 0 <= k < a.len() && crate::glob::glob_matches(#[trigger] a[k], path);
        assert(ab[k] == a[k]);
    }
    if any_glob_matches(b, path) {
        let k = choose|k: int| 0 <= k < b.len() && crate::glob::glob_matches(#[trigger] b[k], path);
        assert(ab[k + a.len()] == b[k]);
    }
}

/// On the globs they compile to, a blacklist of two lists joined together
/// excludes exactly what either list excludes alone.
pub proof fn lemma_joined_blacklists(a: Seq<Seq<char>>, b: Seq<Seq<char>>, path: Seq<char>)
    ensures
        is_excluded(normalized(a + b), path) == (is_excluded(normalized(a), path) || is_excluded(
            normalized(b),
            path,
        )),
{
    lemma_normalized_concat(a, b);
    let (na, nb) = (normalized(a), normalized(b));
    lemma_any_glob_concat(na, nb, path);
    let segs = path_components(path);
    assert forall|j: int| 0 <= j < segs.len() implies any_glob_matches(na + nb, #[trigger] segs[j])
        == (any_glob_matches(na, segs[j]) || any_glob_matches(nb, segs[j])) by {
        lemma_any_glob_concat(na, nb, segs[j]);
    }
}

/// A pattern that parses neither as a glob nor under a recursive wildcard is
/// dropped: the other patterns compile as they would alone.
pub proof fn lemma_unusable_pattern_dropped(ps: Seq<Seq<char>>, p: Seq<char>)
    requires
        !glob_accepts(p),
        !glob_accepts("**/"@ + p),
    ensures
        normalized(ps.push(p)) == normalized(ps),
{
    assert(ps.push(p).drop_last() =~= ps);
    assert(normalized(ps.push(p)) =~= normalized(ps));
}

} // verus!
