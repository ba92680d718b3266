//! Report paths: project-relative, `/`-separated and free of `.` and `..`
//! steps where they can be resolved.
use vstd::prelude::*;

use crate::text::{push_char, push_str, str_eq};

verus! {

/// Whether a segment is kept as a path component (empty segments from
/// repeated separators and `.` are dropped, as `Path::components` does).
pub open spec fn kept(seg: Seq<char>) -> bool {
    seg.len() > 0 && seg != seq!['.']
}

/// Appends the pending segment to the finished ones when it is kept.
pub open spec fn close_segment(done: Seq<Seq<char>>, cur: Seq<char>) -> Seq<Seq<char>> {
    if kept(cur) {
        done.push(cur)
    } else {
        done
    }
}

/// Left-to-right scan of a path: the finished segments and the pending one.
pub open spec fn scan_segments(p: Seq<char>) -> (Seq<Seq<char>>, Seq<char>)
    decreases p.len(),
{
    if p.len() == 0 {
        (Seq::empty(), Seq::empty())
    } else {
        let prev = scan_segments(p.drop_last());
        if p.last() == '/' {
            (close_segment(prev.0, prev.1), Seq::empty())
        } else {
            (prev.0, prev.1.push(p.last()))
        }
    }
}

/// The components of a `/`-separated path, without root, empty or `.` parts.
pub open spec fn segments(p: Seq<char>) -> Seq<Seq<char>> {
    close_segment(scan_segments(p).0, scan_segments(p).1)
}

/// Whether the path is absolute.
pub open spec fn is_absolute(p: Seq<char>) -> bool {
    p.len() > 0 && p[0] == '/'
}

/// The components of `input` resolved against `root` (`root.join(input)`).
pub open spec fn joined(root: Seq<char>, input: Seq<char>) -> Seq<Seq<char>> {
    if is_absolute(input) {
        segments(input)
    } else {
        segments(root) + segments(input)
    }
}

/// The components of the joined path after removing `root` when it is a
/// component-wise prefix (`Path::strip_prefix`); otherwise all of them.
pub open spec fn relative_components(root: Seq<char>, input: Seq<char>) -> Seq<Seq<char>> {
    let all = joined(root, input);
    let r = segments(root);
    let absolute = is_absolute(input) || is_absolute(root);
    if absolute == is_absolute(root) && r.len() <= all.len() && all.take(r.len() as int) == r {
        all.skip(r.len() as int)
    } else {
        all
    }
}

/// Resolves `..` against the preceding component where there is one that is
/// not itself `..`; leading `..` steps stay.
pub open spec fn resolve_parents(parts: Seq<Seq<char>>) -> Seq<Seq<char>>
    decreases parts.len(),
{
    if parts.len() == 0 {
        Seq::empty()
    } else {
        let acc = resolve_parents(parts.drop_last());
        let part = parts.last();
        if part == seq!['.', '.'] {
            if acc.len() > 0 && acc.last() != seq!['.', '.'] {
                acc.drop_last()
            } else {
                acc.push(part)
            }
        } else {
            acc.push(part)
        }
    }
}

/// Components joined by `/`.
pub open spec fn join_slash(parts: Seq<Seq<char>>) -> Seq<char>
    decreases parts.len(),
{
    if parts.len() == 0 {
        Seq::empty()
    } else if parts.len() == 1 {
        parts[0]
    } else {
        join_slash(parts.drop_last()) + seq!['/'] + parts.last()
    }
}

/// The path of `input` as reports show it: relative to `root`, `/`-separated,
/// with `.` dropped and `..` resolved, and `.` for the root itself.
pub open spec fn spec_normalize_path(root: Seq<char>, input: Seq<char>) -> Seq<char> {
    let parts = resolve_parents(relative_components(root, input));
    if parts.len() == 0 {
        seq!['.']
    } else {
        join_slash(parts)
    }
}

fn is_kept(cur: &String) -> (r: bool)
    ensures
        r == kept(cur@),
{
    let empty = cur.as_str().is_empty();
    let dot = str_eq(cur.as_str(), ".");
    proof {
        reveal_strlit(".");
        assert("."@ =~= seq!['.']);
    }
    !empty && !dot
}

/// The components of a path.
pub fn path_segments(p: &str) -> (r: Vec<String>)
    ensures
        r@.map_values(|s: String| s@) == segments(p@),
{
    let v = crate::text::chars_of(p);
    let mut done: Vec<String> = Vec::new();
    let mut cur = String::new();
    let mut i: usize = 0;
    while i < v.len()
        invariant
            0 <= i <= v@.len(),
            v@ == p@,
            done@.map_values(|s: String| s@) == scan_segments(v@.take(i as int)).0,
            cur@ == scan_segments(v@.take(i as int)).1,
        decreases v.len() - i,
    {
        proof {
            assert(v@.take(i + 1).drop_last() =~= v@.take(i as int));
        }
        let c = v[i];
        if c == '/' {
            if is_kept(&cur) {
                let ghost before = done@.map_values(|s: String| s@);
                done.push(cur);
                proof {
                    assert(done@.map_values(|s: String| s@) =~= before.push(scan_segments(
                        v@.take(i as int),
                    ).1));
                }
            }
            cur = String::new();
        } else {
            push_char(&mut cur, c);
        }
        i = i + 1;
    }
    proof {
        assert(v@.take(v@.len() as int) =~= v@);
    }
    if is_kept(&cur) {
        let ghost before = done@.map_values(|s: String| s@);
        done.push(cur);
        proof {
            assert(done@.map_values(|s: String| s@) =~= before.push(scan_segments(v@).1));
        }
    }
    done
}

} // verus!

verus! {

/// The views of a vector of strings.
pub open spec fn views(v: Seq<String>) -> Seq<Seq<char>> {
    v.map_values(|s: String| s@)
}

fn starts_with_slash(p: &str) -> (r: bool)
    ensures
        r == is_absolute(p@),
{
    let r = crate::text::starts_with(p, "/");
    proof {
        reveal_strlit("/");
        assert("/"@ =~= seq!['/']);
        if is_absolute(p@) {
            assert(p@.subrange(0, 1) =~= seq!['/']);
        }
        if r {
            assert(p@.subrange(0, 1)[0] == '/');
        }
    }
    r
}

/// Copies `v[from..]` onto the end of `out`.
fn extend_from(out: &mut Vec<String>, v: &Vec<String>, from: usize)
    requires
        from <= v@.len(),
    ensures
        views(final(out)@) == views(old(out)@) + views(v@).skip(from as int),
{
    let mut i = from;
    while i < v.len()
        invariant
            from <= i <= v@.len(),
            views(out@) == views(old(out)@) + views(v@).subrange(from as int, i as int),
        decreases v.len() - i,
    {
        let ghost before = views(out@);
        out.push(v[i].clone());
        proof {
            assert(views(out@) =~= before.push(v@[i as int]@));
            assert(views(v@).subrange(from as int, i + 1) =~= views(v@).subrange(
                from as int,
                i as int,
            ).push(v@[i as int]@));
        }
        i = i + 1;
    }
    proof {
        assert(views(v@).subrange(from as int, v@.len() as int) =~= views(v@).skip(from as int));
    }
}

/// Whether `prefix` is a component-wise prefix of `all`.
fn is_prefix(prefix: &Vec<String>, all: &Vec<String>) -> (r: bool)
    ensures
        r == (views(prefix@).len() <= views(all@).len() && views(all@).take(
            views(prefix@).len() as int,
        ) == views(prefix@)),
{
    if prefix.len() > all.len() {
        return false;
    }
    let mut i: usize = 0;
    while i < prefix.len()
        invariant
            prefix@.len() <= all@.len(),
            0 <= i <= prefix@.len(),
            forall|k: int| 0 <= k < i ==> prefix@[k]@ == all@[k]@,
        decreases prefix.len() - i,
    {
        if !str_eq(prefix[i].as_str(), all[i].as_str()) {
            proof {
                assert(views(all@).take(views(prefix@).len() as int)[i as int] != views(
                    prefix@,
                )[i as int]);
            }
            return false;
        }
        i = i + 1;
    }
    proof {
        assert(views(all@).take(views(prefix@).len() as int) =~= views(prefix@));
    }
    true
}

fn is_parent_step(s: &String) -> (r: bool)
    ensures
        r == (s@ == seq!['.', '.']),
{
    let r = str_eq(s.as_str(), "..");
    proof {
        reveal_strlit("..");
        assert(".."@ =~= seq!['.', '.']);
    }
    r
}

/// Resolves `..` steps (see `resolve_parents`).
fn resolve_parent_steps(parts: &Vec<String>) -> (r: Vec<String>)
    ensures
        views(r@) == resolve_parents(views(parts@)),
{
    let mut acc: Vec<String> = Vec::new();
    let mut i: usize = 0;
    while i < parts.len()
        invariant
            0 <= i <= parts@.len(),
            views(acc@) == resolve_parents(views(parts@).take(i as int)),
        decreases parts.len() - i,
    {
        let ghost before = views(acc@);
        proof {
            assert(views(parts@).take(i + 1).drop_last() =~= views(parts@).take(i as int));
            assert(views(parts@).take(i + 1).last() == parts@[i as int]@);
        }
        if is_parent_step(&parts[i]) {
            let n = acc.len();
            if n > 0 && !is_parent_step(&acc[n - 1]) {
                acc.pop();
                proof {
                    assert(views(acc@) =~= before.drop_last());
                }
            } else {
                acc.push(parts[i].clone());
                proof {
                    assert(views(acc@) =~= before.push(parts@[i as int]@));
                }
            }
        } else {
            acc.push(parts[i].clone());
            proof {
                assert(views(acc@) =~= before.push(parts@[i as int]@));
            }
        }
        i = i + 1;
    }
    proof {
        assert(views(parts@).take(parts@.len() as int) =~= views(parts@));
    }
    acc
}

/// Joins components with `/`.
pub fn join_with_slash(parts: &Vec<String>) -> (r: String)
    ensures
        r@ == join_slash(views(parts@)),
{
    let mut s = String::new();
    let mut i: usize = 0;
    while i < parts.len()
        invariant
            0 <= i <= parts@.len(),
            s@ == join_slash(views(parts@).take(i as int)),
        decreases parts.len() - i,
    {
        proof {
            assert(views(parts@).take(i + 1).drop_last() =~= views(parts@).take(i as int));
        }
        if i > 0 {
            push_char(&mut s, '/');
        }
        push_str(&mut s, parts[i].as_str());
        proof {
            if i == 0 {
                assert(views(parts@).take(1)[0] == parts@[0]@);
                assert(s@ =~= join_slash(views(parts@).take(1)));
            } else {
                assert(s@ =~= join_slash(views(parts@).take(i + 1)));
            }
        }
        i = i + 1;
    }
    proof {
        assert(views(parts@).take(parts@.len() as int) =~= views(parts@));
    }
    s
}

/// The report path of `input`: relative to `root` when inside it,
/// `/`-separated, with `.` dropped and `..` resolved; `.` for the root.
pub fn normalize_path(root: &str, input: &str) -> (r: String)
    ensures
        r@ == spec_normalize_path(root@, input@),
{
    let root_parts = path_segments(root);
    let input_parts = path_segments(input);
    let input_absolute = starts_with_slash(input);
    let root_absolute = starts_with_slash(root);
    let mut all: Vec<String> = Vec::new();
    if !input_absolute {
        extend_from(&mut all, &root_parts, 0);
    }
    extend_from(&mut all, &input_parts, 0);
    proof {
        assert(views(root_parts@).skip(0) =~= views(root_parts@));
        assert(views(input_parts@).skip(0) =~= views(input_parts@));
        assert(views(all@) =~= joined(root@, input@));
    }
    let absolute = input_absolute || root_absolute;
    let mut relative: Vec<String> = Vec::new();
    if absolute == root_absolute && is_prefix(&root_parts, &all) {
        extend_from(&mut relative, &all, root_parts.len());
    } else {
        extend_from(&mut relative, &all, 0);
    }
    proof {
        assert(views(all@).skip(0) =~= views(all@));
        assert(views(relative@) =~= relative_components(root@, input@));
    }
    let parts = resolve_parent_steps(&relative);
    if parts.len() == 0 {
        let r = ".".to_owned();
        proof {
            reveal_strlit(".");
        }
        r
    } else {
        join_with_slash(&parts)
    }
}

/// The path on disk of a path that a report gives under `root` (the separator
/// of reports is `/`, as on this platform).
pub fn path_from_report(root: &str, report_path: &str) -> (r: String)
    ensures
        r@ == crate::capabilities::join_path(root@, report_path@),
{
    crate::capabilities::join_path_exec(root, report_path)
}


/// A component that reports can hold: kept by `segments` and free of `/`.
pub open spec fn clean_part(s: Seq<char>) -> bool {
    kept(s) && forall|i: int| 0 <= i < s.len() ==> s[i] != '/'
}

/// Components in which every `..` comes before all other components.
pub open spec fn parents_first(parts: Seq<Seq<char>>) -> bool {
    forall|i: int, j: int| 0 <= i < j < parts.len() && #[trigger] parts[j] == seq!['.', '.'] ==> #[trigger] parts[i] == seq!['.', '.']
}

proof fn lemma_scan_clean(p: Seq<char>)
    ensures
        forall|k: int| 0 <= k < scan_segments(p).0.len() ==> clean_part(#[trigger] scan_segments(p).0[k]),
        forall|i: int| 0 <= i < scan_segments(p).1.len() ==> scan_segments(p).1[i] != '/',
    decreases p.len(),
{
    if p.len() > 0 {
        lemma_scan_clean(p.drop_last());
        let prev = scan_segments(p.drop_last());
        if p.last() != '/' {
            assert forall|i: int| 0 <= i < scan_segments(p).1.len() implies scan_segments(p).1[i] != '/' by {
                if i < prev.1.len() {
                    assert(scan_segments(p).1[i] == prev.1[i]);
                }
            }
        }
    }
}

proof fn lemma_segments_clean(p: Seq<char>)
    ensures
        forall|k: int| 0 <= k < segments(p).len() ==> clean_part(#[trigger] segments(p)[k]),
{
    lemma_scan_clean(p);
}

proof fn lemma_scan_no_slash(y: Seq<char>)
    requires
        forall|i: int| 0 <= i < y.len() ==> y[i] != '/',
    ensures
        scan_segments(y).0 == Seq::<Seq<char>>::empty(),
        scan_segments(y).1 == y,
    decreases y.len(),
{
    if y.len() > 0 {
        lemma_scan_no_slash(y.drop_last());
        assert(y.drop_last().push(y.last()) =~= y);
    }
}

proof fn lemma_scan_append(x: Seq<char>, y: Seq<char>)
    requires
        scan_segments(x).1.len() == 0,
    ensures
        scan_segments(x + y).0 == scan_segments(x).0 + scan_segments(y).0,
        scan_segments(x + y).1 == scan_segments(y).1,
    decreases y.len(),
{
    if y.len() == 0 {
        assert(x + y =~= x);
        assert(scan_segments(x).0 + scan_segments(y).0 =~= scan_segments(x).0);
        assert(scan_segments(x).1 =~= scan_segments(y).1);
    } else {
        lemma_scan_append(x, y.drop_last());
        assert((x + y).drop_last() =~= x + y.drop_last());
        assert((x + y).last() == y.last());
        let a = scan_segments(x).0;
        let b = scan_segments(y.drop_last());
        if y.last() == '/' {
            if kept(b.1) {
                assert((a + b.0).push(b.1) =~= a + b.0.push(b.1));
            }
        }
    }
}

proof fn lemma_join_slash_segments(parts: Seq<Seq<char>>)
    requires
        parts.len() > 0,
        forall|k: int| 0 <= k < parts.len() ==> clean_part(#[trigger] parts[k]),
    ensures
        segments(join_slash(parts)) == parts,
        join_slash(parts).len() > 0,
        join_slash(parts)[0] == parts[0][0],
    decreases parts.len(),
{
    if parts.len() == 1 {
        assert(clean_part(parts[0]));
        lemma_scan_no_slash(parts[0]);
        assert(seq![parts[0]] =~= parts);
    } else {
        let init = parts.drop_last();
        assert forall|k: int| 0 <= k < init.len() implies clean_part(#[trigger] init[k]) by {
            assert(init[k] == parts[k]);
        }
        lemma_join_slash_segments(init);
        let x = join_slash(init) + seq!['/'];
        let last = parts.last();
        assert(clean_part(parts[parts.len() - 1]));
        assert(x.drop_last() =~= join_slash(init));
        assert(scan_segments(x) == (segments(join_slash(init)), Seq::<char>::empty()));
        lemma_scan_no_slash(last);
        lemma_scan_append(x, last);
        assert(join_slash(parts) == x + last);
        assert(scan_segments(x).0 + scan_segments(last).0 =~= init);
        assert(init.push(last) =~= parts);
        assert((x + last)[0] == x[0]);
    }
}

proof fn lemma_resolve_parents_shape(parts: Seq<Seq<char>>)
    ensures
        parents_first(resolve_parents(parts)),
        forall|k: int| 0 <= k < resolve_parents(parts).len() ==> #[trigger] resolve_parents(parts)[k] == seq!['.', '.']
            || parts.contains(resolve_parents(parts)[k]),
    decreases parts.len(),
{
    if parts.len() > 0 {
        let init = parts.drop_last();
        lemma_resolve_parents_shape(init);
        let acc = resolve_parents(init);
        let r = resolve_parents(parts);
        assert forall|k: int| 0 <= k < r.len() implies #[trigger] r[k] == seq!['.', '.'] || parts.contains(r[k]) by {
            if k < acc.len() && r[k] == acc[k] {
                if acc[k] != seq!['.', '.'] {
                    let j = choose|j: int| 0 <= j < init.len() && init[j] == acc[k];
                    assert(parts[j] == init[j]);
                }
            } else {
                assert(parts[parts.len() - 1] == parts.last());
            }
        }
        assert forall|i: int, j: int| 0 <= i < j < r.len() && #[trigger] r[j] == seq!['.', '.'] implies #[trigger] r[i] == seq!['.', '.'] by {
            if j < acc.len() {
                assert(r[j] == acc[j]);
                assert(r[i] == acc[i]);
            } else {
                assert(r[i] == acc[i]);
                if acc.len() > 0 && acc.last() != seq!['.', '.'] {
                    assert(parts.last() != seq!['.', '.']);
                } else {
                    assert(acc[acc.len() - 1] == seq!['.', '.'] || acc.len() == 0);
                }
            }
        }
    }
}

proof fn lemma_resolve_parents_fixed(parts: Seq<Seq<char>>)
    requires
        parents_first(parts),
    ensures
        resolve_parents(parts) == parts,
    decreases parts.len(),
{
    if parts.len() > 0 {
        let init = parts.drop_last();
        assert forall|i: int, j: int| 0 <= i < j < init.len() && #[trigger] init[j] == seq!['.', '.'] implies #[trigger] init[i] == seq!['.', '.'] by {
            assert(parts[j] == init[j]);
            assert(parts[i] == init[i]);
        }
        lemma_resolve_parents_fixed(init);
        if parts.last() == seq!['.', '.'] && init.len() > 0 {
            assert(parts[init.len() - 1] == seq!['.', '.']);
        }
        assert(init.push(parts.last()) =~= parts);
    }
}

proof fn lemma_resolved_clean(root: Seq<char>, input: Seq<char>)
    ensures
        forall|k: int| 0 <= k < resolve_parents(relative_components(root, input)).len()
            ==> clean_part(#[trigger] resolve_parents(relative_components(root, input))[k]),
        parents_first(resolve_parents(relative_components(root, input))),
{
    let rel = relative_components(root, input);
    lemma_segments_clean(root);
    lemma_segments_clean(input);
    let all = joined(root, input);
    assert forall|k: int| 0 <= k < all.len() implies clean_part(#[trigger] all[k]) by {
        if !is_absolute(input) && k >= segments(root).len() {
            assert(all[k] == segments(input)[k - segments(root).len()]);
        } else if !is_absolute(input) {
            assert(all[k] == segments(root)[k]);
        }
    }
    assert forall|k: int| 0 <= k < rel.len() implies clean_part(#[trigger] rel[k]) by {
        if rel != all {
            assert(rel[k] == all[k + segments(root).len()]);
        }
    }
    lemma_resolve_parents_shape(rel);
    let r = resolve_parents(rel);
    assert forall|k: int| 0 <= k < r.len() implies clean_part(#[trigger] r[k]) by {
        if r[k] == seq!['.', '.'] {
            assert(kept(seq!['.', '.']));
        } else {
            let j = choose|j: int| 0 <= j < rel.len() && rel[j] == r[k];
            assert(clean_part(rel[j]));
        }
    }
}

/// What a report path looks like: `.`, or the `/`-joined components that its
/// `segments` give back, each non-empty, not `.` and free of `/`, with every `..`
/// before all other components.
pub proof fn lemma_normalize_path_shape(root: Seq<char>, input: Seq<char>)
    ensures
        spec_normalize_path(root, input) == seq!['.'] || ({
            let parts = segments(spec_normalize_path(root, input));
            &&& parts.len() > 0
            &&& spec_normalize_path(root, input) == join_slash(parts)
            &&& forall|k: int| 0 <= k < parts.len() ==> clean_part(#[trigger] parts[k])
            &&& parents_first(parts)
        }),
{
    lemma_resolved_clean(root, input);
    let parts = resolve_parents(relative_components(root, input));
    if parts.len() > 0 {
        lemma_join_slash_segments(parts);
    }
}

/// The report path of a report path is itself: normalizing is idempotent under an
/// absolute root.
pub proof fn lemma_normalize_path_idempotent(root: Seq<char>, input: Seq<char>)
    requires
        is_absolute(root),
    ensures
        spec_normalize_path(root, spec_normalize_path(root, input)) == spec_normalize_path(root, input),
{
    let s = spec_normalize_path(root, input);
    let parts = resolve_parents(relative_components(root, input));
    lemma_resolved_clean(root, input);
    let r = segments(root);
    if parts.len() == 0 {
        assert(s == seq!['.']);
        lemma_scan_no_slash(s);
        assert(!kept(s));
        assert(segments(s) =~= Seq::<Seq<char>>::empty());
        assert(joined(root, s) =~= r);
        assert(r.take(r.len() as int) =~= r);
        assert(relative_components(root, s) =~= Seq::<Seq<char>>::empty());
    } else {
        lemma_join_slash_segments(parts);
        assert(clean_part(parts[0]));
        assert(!is_absolute(s));
        let all = joined(root, s);
        assert(all == r + parts);
        assert(all.take(r.len() as int) =~= r);
        assert(all.skip(r.len() as int) =~= parts);
        lemma_resolve_parents_fixed(parts);
    }
}

/// A path under an absolute root, made of plain components (none `.` or `..`),
/// goes to its report path and back unchanged: `normalize_path` then
/// `path_from_report` give the joined path again.
pub proof fn lemma_report_path_round_trip(root: Seq<char>, parts: Seq<Seq<char>>)
    requires
        is_absolute(root),
        parts.len() > 0,
        forall|k: int| 0 <= k < parts.len() ==> clean_part(#[trigger] parts[k]) && parts[k] != seq!['.', '.'],
    ensures
        spec_normalize_path(root, crate::capabilities::join_path(root, join_slash(parts))) == join_slash(parts),
        crate::capabilities::join_path(
            root,
            spec_normalize_path(root, crate::capabilities::join_path(root, join_slash(parts))),
        ) == crate::capabilities::join_path(root, join_slash(parts)),
{
    let rel = join_slash(parts);
    lemma_join_slash_segments(parts);
    assert(clean_part(parts[0]));
    assert(!is_absolute(rel));
    let prefix = if root.last() == '/' { root } else { root + seq!['/'] };
    let full = crate::capabilities::join_path(root, rel);
    assert(full == prefix + rel);
    if root.last() == '/' {
        assert(root.drop_last().push(root.last()) =~= root);
        assert(scan_segments(prefix).1.len() == 0);
        assert(segments(prefix) == scan_segments(prefix).0);
    } else {
        assert(prefix.drop_last() =~= root);
        assert(scan_segments(prefix).0 == segments(root));
    }
    lemma_scan_append(prefix, rel);
    let r = segments(root);
    assert(segments(full) =~= r + parts) by {
        if root.last() == '/' {
            assert(root.drop_last().push('/') =~= root);
            assert(scan_segments(root).0 == close_segment(scan_segments(root.drop_last()).0, scan_segments(root.drop_last()).1));
            assert(segments(root) == scan_segments(root).0);
        }
    }
    assert(is_absolute(full)) by {
        assert(full[0] == root[0]);
    }
    let all = joined(root, full);
    assert(all.take(r.len() as int) =~= r);
    assert(all.skip(r.len() as int) =~= parts);
    assert(parents_first(parts));
    lemma_resolve_parents_fixed(parts);
}

} // verus!
