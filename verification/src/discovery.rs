//! Which files of the project a comparison looks at.
use vstd::prelude::*;

use crate::capabilities::{compile_globs, glob_set_match, glob_set_patterns, group_error};
use crate::config::{string_views, DiscoveryConfig};
use crate::error::{ConcordError, ErrorKind};
use crate::order::{key_order, KeyPart, Keyed};
use crate::paths::{segments, spec_normalize_path, views};
use crate::text::{owned, push_str, str_eq, Order};

verus! {

/// Directories that discovery never enters.
pub open spec fn ignored_dir(name: Seq<char>) -> bool {
    ||| name == ".git"@
    ||| name == "node_modules"@
    ||| name == "target"@
    ||| name == "dist"@
    ||| name == "build"@
    ||| name == "coverage"@
    ||| name == ".concord"@
    ||| name == ".svn"@
}

fn is_ignored_dir(name: &str) -> (r: bool)
    ensures
        r == ignored_dir(name@),
{
    str_eq(name, ".git") || str_eq(name, "node_modules") || str_eq(name, "target") || str_eq(name, "dist")
        || str_eq(name, "build") || str_eq(name, "coverage") || str_eq(name, ".concord") || str_eq(name, ".svn")
}

/// The components of `path` below the project `root`: those after the root's own
/// components where the path lies under the root, else all of them.
pub open spec fn below_root(root: Seq<char>, path: Seq<char>) -> Seq<Seq<char>> {
    let r = segments(root);
    let p = segments(path);
    if r.len() <= p.len() && p.subrange(0, r.len() as int) == r {
        p.subrange(r.len() as int, p.len() as int)
    } else {
        p
    }
}

/// Whether discovery skips an entry of the walk from `walk_root` in the project at
/// `root`: every entry but the walk's start that has an ignored directory among its
/// components below the project root. Where the project root itself lies under such
/// a directory, that does not count.
pub open spec fn skips_entry(root: Seq<char>, walk_root: Seq<char>, path: Seq<char>) -> bool {
    path != walk_root && exists|k: int|
        0 <= k < below_root(root, path).len() && ignored_dir(#[trigger] below_root(root, path)[k])
}

/// Whether discovery skips an entry of the walk.
pub fn skips(root: &str, walk_root: &str, path: &str) -> (r: bool)
    ensures
        r == skips_entry(root@, walk_root@, path@),
{
    if str_eq(walk_root, path) {
        return false;
    }
    let root_parts = crate::paths::path_segments(root);
    let parts = crate::paths::path_segments(path);
    let ghost rs = segments(root@);
    let ghost ps = segments(path@);
    proof {
        assert(views(root_parts@) =~= rs);
        assert(views(parts@) =~= ps);
    }
    let mut under = root_parts.len() <= parts.len();
    let mut j: usize = 0;
    while under && j < root_parts.len()
        invariant
            views(root_parts@) == rs,
            views(parts@) == ps,
            0 <= j <= root_parts@.len(),
            under ==> rs.len() <= ps.len(),
            under ==> forall|i: int| 0 <= i < j ==> rs[i] == ps[i],
            !under ==> !(rs.len() <= ps.len() && ps.subrange(0, rs.len() as int) == rs),
        decreases root_parts.len() - j + if under { 1int } else { 0int },
    {
        proof {
            assert(rs[j as int] == root_parts@[j as int]@);
            assert(ps[j as int] == parts@[j as int]@);
        }
        if !str_eq(root_parts[j].as_str(), parts[j].as_str()) {
            proof {
                if rs.len() <= ps.len() && ps.subrange(0, rs.len() as int) == rs {
                    assert(ps.subrange(0, rs.len() as int)[j as int] == ps[j as int]);
                }
            }
            under = false;
        } else {
            j = j + 1;
        }
    }
    let first: usize = if under { root_parts.len() } else { 0 };
    let ghost b = below_root(root@, path@);
    proof {
        if under {
            assert(ps.subrange(0, rs.len() as int) =~= rs);
            assert(b =~= ps.subrange(first as int, ps.len() as int));
        } else {
            assert(b =~= ps.subrange(first as int, ps.len() as int));
        }
    }
    let mut k: usize = first;
    while k < parts.len()
        invariant
            first <= k <= parts@.len(),
            path@ != walk_root@,
            views(parts@) == ps,
            b == ps.subrange(first as int, ps.len() as int),
            b == below_root(root@, path@),
            forall|i: int| 0 <= i < k - first ==> !ignored_dir(#[trigger] b[i]),
        decreases parts.len() - k,
    {
        proof {
            assert(ps[k as int] == parts@[k as int]@);
            assert(b[k - first] == ps[k as int]);
        }
        if is_ignored_dir(parts[k].as_str()) {
            proof {
                assert(0 <= k - first < b.len());
                assert(ignored_dir(b[k - first]));
            }
            return true;
        }
        k = k + 1;
    }
    false
}

/// The compiled include and exclude patterns of discovery.
#[derive(Debug)]
pub struct DiscoveryFilter {
    includes: globset::GlobSet,
    excludes: globset::GlobSet,
}

impl DiscoveryFilter {
    /// The include patterns.
    pub closed spec fn includes_view(&self) -> Seq<Seq<char>> {
        glob_set_patterns(self.includes)
    }

    /// The exclude patterns.
    pub closed spec fn excludes_view(&self) -> Seq<Seq<char>> {
        glob_set_patterns(self.excludes)
    }

    /// Compiles the discovery patterns; an invalid one is a usage error that names
    /// its field.
    pub fn new(config: &DiscoveryConfig) -> (r: Result<Self, ConcordError>)
        ensures
            match r {
                Ok(f) => group_error("discovery.include"@, string_views(config.includes@)) is None
                    && group_error("discovery.exclude"@, string_views(config.exclude@)) is None
                    && f.includes_view() == string_views(config.includes@) && f.excludes_view() == string_views(config.exclude@),
                Err(e) => e.kind == ErrorKind::Usage && Some(e.message@) == match group_error("discovery.include"@, string_views(config.includes@)) {
                    Some(x) => Some(x),
                    None => group_error("discovery.exclude"@, string_views(config.exclude@)),
                },
            },
    {
        let includes = match compile_globs(&config.includes, "discovery.include") {
            Ok(s) => s,
            Err(e) => return Err(e),
        };
        let excludes = match compile_globs(&config.exclude, "discovery.exclude") {
            Ok(s) => s,
            Err(e) => return Err(e),
        };
        Ok(DiscoveryFilter { includes, excludes })
    }

    /// Whether a normalized path is included and not excluded.
    pub fn is_supported(&self, path: &str) -> (r: bool)
        ensures
            r == (glob_set_match(self.includes_view(), path@) && !glob_set_match(self.excludes_view(), path@)),
    {
        crate::capabilities::glob_set_is_match(&self.includes, path) && !crate::capabilities::glob_set_is_match(&self.excludes, path)
    }
}

/// Where discovery starts: the root when no input is given, else each input, under
/// the root unless absolute.
pub fn discovery_targets(root: &str, inputs: &Vec<String>) -> (r: Vec<String>)
    ensures
        inputs@.len() == 0 ==> views(r@) == seq![root@],
        inputs@.len() > 0 ==> views(r@) == views(inputs@).map_values(|p: Seq<char>| crate::capabilities::join_path(root@, p)),
{
    let mut r: Vec<String> = Vec::new();
    if inputs.len() == 0 {
        r.push(owned(root));
        proof {
            assert(views(r@) =~= seq![root@]);
        }
        return r;
    }
    let mut i: usize = 0;
    while i < inputs.len()
        invariant
            0 <= i <= inputs@.len(),
            views(r@) == views(inputs@).take(i as int).map_values(|p: Seq<char>| crate::capabilities::join_path(root@, p)),
        decreases inputs.len() - i,
    {
        let ghost before = views(r@);
        r.push(crate::capabilities::join_path_exec(root, inputs[i].as_str()));
        proof {
            assert(views(r@) =~= before.push(crate::capabilities::join_path(root@, inputs@[i as int]@)));
            assert(views(inputs@).take(i + 1).map_values(|p: Seq<char>| crate::capabilities::join_path(root@, p)) =~= views(inputs@).take(i as int).map_values(|p: Seq<char>| crate::capabilities::join_path(root@, p)).push(crate::capabilities::join_path(root@, inputs@[i as int]@)));
        }
        i = i + 1;
    }
    proof {
        assert(views(inputs@).take(inputs@.len() as int) =~= views(inputs@));
    }
    r
}

/// The usage error of an input that does not exist.
pub fn missing_input(target: &str) -> (r: ConcordError)
    ensures
        r.kind == ErrorKind::Usage,
        r.message@ == "input path does not exist: "@ + target@,
{
    let mut message = owned("input path does not exist: ");
    push_str(&mut message, target);
    ConcordError { kind: ErrorKind::Usage, message }
}

/// The usage error of an input file that discovery does not include.
pub fn unsupported_input(normalized: &str) -> (r: ConcordError)
    ensures
        r.kind == ErrorKind::Usage,
        r.message@ == "unsupported or excluded file: "@ + normalized@,
{
    let mut message = owned("unsupported or excluded file: ");
    push_str(&mut message, normalized);
    ConcordError { kind: ErrorKind::Usage, message }
}

/// The operational error of a walk that failed.
pub fn walk_failure(target: &str, error: &str) -> (r: ConcordError)
    ensures
        r.kind == ErrorKind::Operational,
        r.message@ == "failed while discovering files under "@ + target@ + "\nerror: "@ + error@,
{
    let mut message = owned("failed while discovering files under ");
    push_str(&mut message, target);
    push_str(&mut message, "\nerror: ");
    push_str(&mut message, error);
    ConcordError { kind: ErrorKind::Operational, message }
}

/// A discovered file: its normalized path and its path on disk.
#[derive(Debug)]
pub struct Discovered {
    pub normalized: String,
    pub path: String,
}

impl Keyed for Discovered {
    open spec fn key(&self) -> Seq<KeyPart> {
        seq![KeyPart::Text(self.normalized@), KeyPart::Text(self.path@)]
    }

    fn compare_key(&self, other: &Self) -> (r: Order) {
        let a = crate::text::compare_text(self.normalized.as_str(), other.normalized.as_str());
        let b = crate::text::compare_text(self.path.as_str(), other.path.as_str());
        let r = crate::matching::chain(a, b);
        proof {
            assert(self.key().drop_first().drop_first() =~= Seq::<KeyPart>::empty());
            assert(other.key().drop_first().drop_first() =~= Seq::<KeyPart>::empty());
            reveal_with_fuel(key_order, 3);
        }
        r
    }
}

/// `paths` lists the files of `found` in order of their normalized paths (then
/// their paths), each once.
pub open spec fn collected(found: Seq<Discovered>, paths: Seq<Seq<char>>) -> bool {
    exists|sorted: Seq<Discovered>| {
        &&& crate::order::strictly_sorted_by_key(sorted)
        &&& forall|i: int| 0 <= i < sorted.len() ==> found.contains(#[trigger] sorted[i])
        &&& crate::order::covers_keys(sorted, found)
        &&& paths == sorted.map_values(|d: Discovered| d.path@)
    }
}

/// The discovered files in order of their normalized paths (then their paths), each
/// once.
pub fn collect_discovered(found: Vec<Discovered>) -> (r: Vec<String>)
    ensures
        collected(found@, views(r@)),
{
    let sorted = crate::order::sort_dedup_by_key(found);
    let mut r: Vec<String> = Vec::new();
    let mut i: usize = 0;
    while i < sorted.len()
        invariant
            0 <= i <= sorted@.len(),
            views(r@) == sorted@.take(i as int).map_values(|d: Discovered| d.path@),
        decreases sorted.len() - i,
    {
        let ghost before = views(r@);
        r.push(sorted[i].path.clone());
        proof {
            assert(views(r@) =~= before.push(sorted@[i as int].path@));
            assert(sorted@.take(i + 1).map_values(|d: Discovered| d.path@) =~= sorted@.take(i as int).map_values(|d: Discovered| d.path@).push(sorted@[i as int].path@));
        }
        i = i + 1;
    }
    proof {
        assert(sorted@.take(sorted@.len() as int) =~= sorted@);
        assert(crate::order::strictly_sorted_by_key(sorted@));
    }
    r
}

/// The list of discovered files does not depend on the order in which the walk
/// found them: the same files, in any order, give the same list.
pub proof fn lemma_discovery_order_independent(
    first: Seq<Discovered>,
    second: Seq<Discovered>,
    first_paths: Seq<Seq<char>>,
    second_paths: Seq<Seq<char>>,
)
    requires
        first.to_set() == second.to_set(),
        collected(first, first_paths),
        collected(second, second_paths),
    ensures
        first_paths == second_paths,
{
    let s1 = choose|sorted: Seq<Discovered>| {
        &&& crate::order::strictly_sorted_by_key(sorted)
        &&& forall|i: int| 0 <= i < sorted.len() ==> first.contains(#[trigger] sorted[i])
        &&& crate::order::covers_keys(sorted, first)
        &&& first_paths == sorted.map_values(|d: Discovered| d.path@)
    };
    let s2 = choose|sorted: Seq<Discovered>| {
        &&& crate::order::strictly_sorted_by_key(sorted)
        &&& forall|i: int| 0 <= i < sorted.len() ==> second.contains(#[trigger] sorted[i])
        &&& crate::order::covers_keys(sorted, second)
        &&& second_paths == sorted.map_values(|d: Discovered| d.path@)
    };
    assert forall|i: int| 0 <= i < s1.len() implies #[trigger] crate::order::has_key_of(s2, s1[i]) by {
        assert(first.contains(s1[i]));
        assert(first.to_set().contains(s1[i]));
        assert(second.to_set().contains(s1[i]));
        let j = choose|j: int| 0 <= j < second.len() && second[j] == s1[i];
        assert(crate::order::has_key_of(s2, second[j]));
    }
    assert forall|i: int| 0 <= i < s2.len() implies #[trigger] crate::order::has_key_of(s1, s2[i]) by {
        assert(second.contains(s2[i]));
        assert(second.to_set().contains(s2[i]));
        assert(first.to_set().contains(s2[i]));
        let j = choose|j: int| 0 <= j < first.len() && first[j] == s2[i];
        assert(crate::order::has_key_of(s1, first[j]));
    }
    crate::order::lemma_strictly_sorted_same_keys(s1, s2);
    assert forall|i: int| 0 <= i < s1.len() implies s1[i].path@ == s2[i].path@ by {
        assert(s1[i].key() == s2[i].key());
        assert(s1[i].key()[1] == s2[i].key()[1]);
    }
    assert(first_paths =~= second_paths);
}

} // verus!
