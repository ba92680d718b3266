//! Reduction of a file to a small reproduction of one mismatch.
use vstd::prelude::*;

use crate::error::{ConcordError, ErrorKind};
use crate::matching::{MatchKind, MatchResult};
use crate::report::FormatComparisonStatus;
use crate::model::{clone_opt_string, opt_view, sha256_hex, sha256_hex_of, Diagnostic, Severity, Tool};
use crate::paths::{is_absolute, join_slash, join_with_slash, path_segments, segments, views};
use crate::text::{
    concat, decimal, lemma_pieces_concat, owned, pieces, push_char, push_decimal, push_str,
    split_pieces, str_eq,
};

verus! {

/// The lines that a reduction starts from: the source cut after every newline, or
/// one empty line for an empty source.
pub open spec fn initial_lines(s: Seq<char>) -> Seq<Seq<char>> {
    if pieces(s).len() == 0 {
        seq![Seq::<char>::empty()]
    } else {
        pieces(s)
    }
}

/// `chosen` are the lines of `all` at the strictly increasing positions `idx`.
pub open spec fn picks(all: Seq<Seq<char>>, idx: Seq<int>, chosen: Seq<Seq<char>>) -> bool {
    &&& idx.len() == chosen.len()
    &&& forall|k: int| 0 <= k < idx.len() ==> 0 <= #[trigger] idx[k] < all.len() && all[idx[k]] == chosen[k]
    &&& forall|a: int, b: int| 0 <= a < b < idx.len() ==> #[trigger] idx[a] < #[trigger] idx[b]
}

/// `text` is some of the lines of `all`, kept in their order.
pub open spec fn keeps_lines(all: Seq<Seq<char>>, text: Seq<char>) -> bool {
    exists|idx: Seq<int>, chosen: Seq<Seq<char>>| picks(all, idx, chosen) && concat(chosen) == text
}

/// The lines of `all` at the positions `idx`.
pub open spec fn lines_at(all: Seq<Seq<char>>, idx: Seq<int>) -> Seq<Seq<char>> {
    idx.map_values(|i: int| all[i])
}

/// `idx` are strictly increasing positions of lines of `all`.
pub open spec fn ascending(all: Seq<Seq<char>>, idx: Seq<int>) -> bool {
    &&& forall|k: int| 0 <= k < idx.len() ==> 0 <= #[trigger] idx[k] < all.len()
    &&& forall|a: int, b: int| 0 <= a < b < idx.len() ==> #[trigger] idx[a] < #[trigger] idx[b]
}

/// The positions `idx` without the one at `k`.
pub open spec fn without(idx: Seq<int>, k: int) -> Seq<int> {
    idx.subrange(0, k) + idx.subrange(k + 1, idx.len() as int)
}

/// Every position of `idx` other than the `k`-th is among `rej`.
pub open spec fn covers_except(rej: Seq<int>, idx: Seq<int>, k: int) -> bool {
    forall|j: int| 0 <= j < idx.len() && j != k ==> rej.contains(#[trigger] idx[j])
}

/// `rej` is a choice of lines of `all` that holds every line of the choice `idx` but
/// its `k`-th, and the predicate rejected the text of `rej`.
pub open spec fn rejected_choice<F: FnMut(&str) -> bool>(
    pred: F,
    all: Seq<Seq<char>>,
    rej: Seq<int>,
    idx: Seq<int>,
    k: int,
) -> bool {
    &&& ascending(all, rej)
    &&& covers_except(rej, idx, k)
    &&& exists|s: &str| s@ == concat(lines_at(all, rej)) && call_ensures(pred, (s,), false)
}

/// No line of the choice `idx` can go: for each of its lines the predicate rejected a
/// text made of source lines that keeps all the other chosen lines.
pub open spec fn each_line_needed<F: FnMut(&str) -> bool>(pred: F, all: Seq<Seq<char>>, idx: Seq<int>) -> bool {
    forall|k: int| 0 <= k < idx.len() ==> #[trigger] line_needed(pred, all, idx, k)
}

/// The predicate rejected a text of source lines holding every line of the choice
/// `idx` but its `k`-th.
pub open spec fn line_needed<F: FnMut(&str) -> bool>(pred: F, all: Seq<Seq<char>>, idx: Seq<int>, k: int) -> bool {
    exists|rej: Seq<int>| rejected_choice(pred, all, rej, idx, k)
}

/// The predicate is monotone on texts made of lines of `all`: it never rejects a
/// choice of lines that holds every line of a choice it accepted.
pub open spec fn accepts_supersets<F: FnMut(&str) -> bool>(pred: F, all: Seq<Seq<char>>) -> bool {
    forall|a: Seq<int>, b: Seq<int>, x: &str, y: &str|
        #![trigger lines_at(all, a), lines_at(all, b), call_ensures(pred, (x,), true), call_ensures(pred, (y,), false)]
        ascending(all, a) && ascending(all, b) && (forall|i: int| 0 <= i < a.len() ==> b.contains(#[trigger] a[i]))
            && x@ == concat(lines_at(all, a)) && y@ == concat(lines_at(all, b)) && call_ensures(pred, (x,), true)
            ==> !call_ensures(pred, (y,), false)
}

/// A reduction is one-minimal for a monotone predicate: when every line of a choice
/// was needed, the predicate accepts no text that drops one of its lines.
pub proof fn lemma_reduction_one_minimal<F: FnMut(&str) -> bool>(
    pred: F,
    all: Seq<Seq<char>>,
    idx: Seq<int>,
    k: int,
    s: &str,
)
    requires
        accepts_supersets(pred, all),
        ascending(all, idx),
        each_line_needed(pred, all, idx),
        0 <= k < idx.len(),
        s@ == concat(lines_at(all, without(idx, k))),
    ensures
        !call_ensures(pred, (s,), true),
{
    assert(line_needed(pred, all, idx, k));
    let rej = choose|rej: Seq<int>| rejected_choice(pred, all, rej, idx, k);
    assert(rejected_choice(pred, all, rej, idx, k));
    let t = choose|t: &str| t@ == concat(lines_at(all, rej)) && call_ensures(pred, (t,), false);
    let a = without(idx, k);
    assert forall|i: int| 0 <= i < a.len() implies rej.contains(#[trigger] a[i]) by {
        if i < k {
            assert(a[i] == idx[i]);
        } else {
            assert(a[i] == idx[i + 1]);
        }
    }
    assert forall|i: int| 0 <= i < a.len() implies 0 <= #[trigger] a[i] < all.len() by {
        if i < k {
            assert(a[i] == idx[i]);
        } else {
            assert(a[i] == idx[i + 1]);
        }
    }
    assert forall|i: int, j: int| 0 <= i < j < a.len() implies #[trigger] a[i] < #[trigger] a[j] by {
        let ii = if i < k { i } else { i + 1 };
        let jj = if j < k { j } else { j + 1 };
        assert(a[i] == idx[ii]);
        assert(a[j] == idx[jj]);
    }
    assert(ascending(all, a));
    if call_ensures(pred, (s,), true) {
        assert(lines_at(all, a) == lines_at(all, a));
        assert(lines_at(all, rej) == lines_at(all, rej));
        assert(!call_ensures(pred, (t,), false));
    }
}

proof fn lemma_picks_lines_at(all: Seq<Seq<char>>, idx: Seq<int>, chosen: Seq<Seq<char>>)
    requires
        picks(all, idx, chosen),
    ensures
        ascending(all, idx),
        chosen == lines_at(all, idx),
{
    assert(chosen =~= lines_at(all, idx));
}

proof fn lemma_concat_push(parts: Seq<Seq<char>>, x: Seq<char>)
    ensures
        concat(parts.push(x)) == concat(parts) + x,
{
    assert(parts.push(x).drop_last() =~= parts);
}

/// The lines without those at positions `start..end`, and their concatenation.
fn join_except(lines: &Vec<String>, start: usize, end: usize) -> (r: (String, Vec<String>))
    requires
        start <= end <= lines@.len(),
    ensures
        views(r.1@) == views(lines@).subrange(0, start as int) + views(lines@).subrange(
            end as int,
            lines@.len() as int,
        ),
        r.0@ == concat(views(r.1@)),
{
    let mut text = String::new();
    let mut kept: Vec<String> = Vec::new();
    let ghost all = views(lines@);
    let mut i: usize = 0;
    while i < lines.len()
        invariant
            0 <= i <= lines@.len(),
            start <= end <= lines@.len(),
            all == views(lines@),
            views(kept@) == all.subrange(0, if i < start { i as int } else { start as int })
                + if i <= end { Seq::<Seq<char>>::empty() } else { all.subrange(end as int, i as int) },
            text@ == concat(views(kept@)),
        decreases lines.len() - i,
    {
        if i < start || i >= end {
            let ghost before = views(kept@);
            push_str(&mut text, lines[i].as_str());
            kept.push(lines[i].clone());
            proof {
                assert(views(kept@) =~= before.push(lines@[i as int]@));
                lemma_concat_push(before, lines@[i as int]@);
                if i < start {
                    assert(all.subrange(0, i + 1) =~= all.subrange(0, i as int).push(all[i as int]));
                } else {
                    assert(all.subrange(end as int, i + 1) =~= (if i <= end { Seq::<Seq<char>>::empty() } else { all.subrange(end as int, i as int) }).push(all[i as int]));
                }
            }
        }
        proof {
            if !(i < start || i >= end) {
                assert(all.subrange(0, start as int) + Seq::<Seq<char>>::empty() =~= all.subrange(0, start as int));
            }
        }
        i = i + 1;
    }
    proof {
        if lines@.len() <= end {
            assert(all.subrange(end as int, lines@.len() as int) =~= Seq::<Seq<char>>::empty());
            assert(all.subrange(0, start as int) + Seq::<Seq<char>>::empty() =~= all.subrange(0, start as int));
        }
    }
    (text, kept)
}

/// Removing the positions `start..end` keeps a choice of lines a choice of lines.
proof fn lemma_picks_remove(
    all: Seq<Seq<char>>,
    idx: Seq<int>,
    chosen: Seq<Seq<char>>,
    start: int,
    end: int,
)
    requires
        picks(all, idx, chosen),
        0 <= start <= end <= idx.len(),
    ensures
        picks(
            all,
            idx.subrange(0, start) + idx.subrange(end, idx.len() as int),
            chosen.subrange(0, start) + chosen.subrange(end, chosen.len() as int),
        ),
{
    let ni = idx.subrange(0, start) + idx.subrange(end, idx.len() as int);
    let nc = chosen.subrange(0, start) + chosen.subrange(end, chosen.len() as int);
    assert forall|k: int| 0 <= k < ni.len() implies 0 <= #[trigger] ni[k] < all.len() && all[ni[k]] == nc[k] by {
        if k < start {
            assert(ni[k] == idx[k]);
        } else {
            assert(ni[k] == idx[k + end - start]);
        }
    }
    assert forall|a: int, b: int| 0 <= a < b < ni.len() implies #[trigger] ni[a] < #[trigger] ni[b] by {
        let ia = if a < start { a } else { a + end - start };
        let ib = if b < start { b } else { b + end - start };
        assert(ni[a] == idx[ia]);
        assert(ni[b] == idx[ib]);
        assert(idx[ia] < idx[ib]);
    }
}

/// Minimizes `source` line by line while `predicate` keeps accepting: chunks of lines
/// are dropped at ever finer granularity, then single lines. The result keeps some
/// of the source lines in order, and it is the source itself or a text that the
/// predicate accepted. Every line of the result was needed: for each one the
/// predicate rejected a text of source lines holding all the other lines of the
/// result, so for a monotone predicate no text that drops one line of the result
/// is accepted.
pub fn delta_debug<F: FnMut(&str) -> bool>(source: &str, predicate: &mut F) -> (r: String)
    requires
        forall|s: &str| call_requires(*old(predicate), (s,)),
    ensures
        keeps_lines(initial_lines(source@), r@),
        r@ == source@ || exists|s: &str| s@ == r@ && call_ensures(*old(predicate), (s,), true),
        exists|idx: Seq<int>|
            {
                &&& ascending(initial_lines(source@), idx)
                &&& #[trigger] concat(lines_at(initial_lines(source@), idx)) == r@
                &&& each_line_needed(*old(predicate), initial_lines(source@), idx)
                &&& accepts_supersets(*old(predicate), initial_lines(source@)) ==> forall|k: int, s: &str|
                    #![trigger without(idx, k), call_ensures(*old(predicate), (s,), true)]
                    0 <= k < idx.len() && s@ == concat(lines_at(initial_lines(source@), without(idx, k)))
                        ==> !call_ensures(*old(predicate), (s,), true)
            },
{
    let ghost pred = *predicate;
    let mut lines = split_pieces(source);
    if lines.len() == 0 {
        lines.push(String::new());
    }
    let ghost all = initial_lines(source@);
    let ghost mut idx: Seq<int> = Seq::new(all.len(), |k: int| k);
    proof {
        lemma_pieces_concat(source@);
        assert(views(lines@) =~= all);
        assert(picks(all, idx, views(lines@)));
        if pieces(source@).len() == 0 {
            assert(source@.len() == 0);
            assert(all.drop_last() =~= Seq::<Seq<char>>::empty());
            assert(concat(all) =~= concat(Seq::<Seq<char>>::empty()) + Seq::<char>::empty());
        }
        assert(concat(all) == source@);
    }
    let mut granularity: usize = 2;
    while lines.len() >= 2
        invariant
            *predicate == pred,
            forall|s: &str| call_requires(pred, (s,)),
            picks(all, idx, views(lines@)),
            concat(views(lines@)) == source@ || exists|s: &str| s@ == concat(views(lines@)) && call_ensures(pred, (s,), true),
            granularity >= 2,
        decreases lines.len(), if lines.len() >= granularity { lines.len() - granularity } else { 0 },
    {
        let len = lines.len();
        let q = len / granularity;
        assert(q < len && (q == 0 ==> len % granularity != 0)) by (nonlinear_arith)
            requires len >= 2, granularity >= 2, q == len / granularity;
        let chunk_size = if len % granularity != 0 { q + 1 } else { q };
        let mut reduced = false;
        let ghost old_granularity = granularity;
        let mut start: usize = 0;
        while start < lines.len()
            invariant_except_break
                !reduced,
                lines@.len() == len,
                granularity == old_granularity,
            invariant
                *predicate == pred,
                forall|s: &str| call_requires(pred, (s,)),
                picks(all, idx, views(lines@)),
                concat(views(lines@)) == source@ || exists|s: &str| s@ == concat(views(lines@)) && call_ensures(pred, (s,), true),
                chunk_size >= 1,
                len >= 2,
                granularity >= 2,
            ensures
                reduced ==> lines@.len() < len,
                !reduced ==> lines@.len() == len,
                !reduced ==> granularity == old_granularity,
            decreases lines.len() - start,
        {
            let end = if chunk_size < lines.len() - start { start + chunk_size } else { lines.len() };
            let (candidate, kept) = join_except(&lines, start, end);
            let cs = candidate.as_str();
            if predicate(cs) {
                proof {
                    lemma_picks_remove(all, idx, views(lines@), start as int, end as int);
                    idx = idx.subrange(0, start as int) + idx.subrange(end as int, idx.len() as int);
                    assert(call_ensures(pred, (cs,), true));
                }
                lines = kept;
                granularity = if granularity > 2 { granularity - 1 } else { 2 };
                reduced = true;
                break;
            }
            start = end;
        }
        if !reduced {
            if granularity >= lines.len() {
                break;
            }
            let half = lines.len() / 2;
            assert(half * 2 <= lines@.len()) by (nonlinear_arith)
                requires half == lines@.len() / 2;
            granularity = if granularity <= half { granularity * 2 } else { lines.len() };
        }
        if reduced {
            assert(lines@.len() < len);
        } else {
            assert(lines@.len() == len);
            assert(old_granularity < len);
            assert(granularity <= len);
            assert(len - granularity < len - old_granularity);
        }
    }
    let mut index: usize = 0;
    let ghost mut rej: Seq<Seq<int>> = Seq::empty();
    while index < lines.len()
        invariant
            *predicate == pred,
            forall|s: &str| call_requires(pred, (s,)),
            picks(all, idx, views(lines@)),
            concat(views(lines@)) == source@ || exists|s: &str| s@ == concat(views(lines@)) && call_ensures(pred, (s,), true),
            index <= lines@.len(),
            rej.len() == index,
            forall|k: int| 0 <= k < index ==> #[trigger] rejected_choice(pred, all, rej[k], idx, k),
        decreases lines.len() - index,
    {
        let (candidate, kept) = join_except(&lines, index, index + 1);
        let cs = candidate.as_str();
        let ghost ni = without(idx, index as int);
        proof {
            lemma_picks_remove(all, idx, views(lines@), index as int, index + 1);
            lemma_picks_lines_at(all, ni, views(kept@));
            lemma_picks_lines_at(all, idx, views(lines@));
        }
        if predicate(cs) {
            proof {
                assert forall|k: int| 0 <= k < index implies #[trigger] rejected_choice(pred, all, rej[k], ni, k) by {
                    assert(rejected_choice(pred, all, rej[k], idx, k));
                    assert forall|j: int| 0 <= j < ni.len() && j != k implies rej[k].contains(#[trigger] ni[j]) by {
                        if j < index {
                            assert(ni[j] == idx[j]);
                        } else {
                            assert(ni[j] == idx[j + 1]);
                        }
                    }
                }
                idx = ni;
                assert(call_ensures(pred, (cs,), true));
            }
            lines = kept;
        } else {
            proof {
                assert forall|j: int| 0 <= j < idx.len() && j != index implies ni.contains(#[trigger] idx[j]) by {
                    if j < index {
                        assert(ni[j] == idx[j]);
                    } else {
                        assert(ni[j - 1] == idx[j]);
                    }
                }
                assert(cs@ == concat(lines_at(all, ni)));
                assert(rejected_choice(pred, all, ni, idx, index as int));
                let prev = rej;
                rej = rej.push(ni);
                assert forall|k: int| 0 <= k < index + 1 implies #[trigger] rejected_choice(pred, all, rej[k], idx, k) by {
                    if k < index {
                        assert(rej[k] == prev[k]);
                    }
                }
            }
            index = index + 1;
        }
    }
    let (result, kept) = join_except(&lines, 0, 0);
    proof {
        assert(views(kept@) =~= views(lines@));
        assert(picks(all, idx, views(lines@)));
        lemma_picks_lines_at(all, idx, views(lines@));
        assert(each_line_needed(pred, all, idx)) by {
            assert forall|k: int| 0 <= k < idx.len() implies #[trigger] line_needed(pred, all, idx, k) by {
                assert(rejected_choice(pred, all, rej[k], idx, k));
            }
        }
        if accepts_supersets(pred, all) {
            assert forall|k: int, s: &str|
                #![trigger without(idx, k), call_ensures(pred, (s,), true)]
                0 <= k < idx.len() && s@ == concat(lines_at(all, without(idx, k)))
                    implies !call_ensures(pred, (s,), true) by {
                lemma_reduction_one_minimal(pred, all, idx, k, s);
            }
        }
        assert(concat(lines_at(all, idx)) == result@);
    }
    result
}

/// What a reduction preserves: lint diagnostics or formatter output.
#[derive(Debug, Clone, Copy, PartialEq, Eq, Structural)]
pub enum ReduceMode {
    Lint,
    Format,
}

/// What to reduce, against which tools, and which mismatch to keep.
#[derive(Debug)]
pub struct ReductionRequest {
    pub mode: ReduceMode,
    pub baseline: Tool,
    pub candidate: Tool,
    pub input: String,
    pub output: Option<String>,
    pub mismatch: usize,
    pub timeout_seconds: Option<u64>,
}

/// The identity of one diagnostic within a mismatch.
#[derive(Debug)]
pub struct DiagnosticSignature {
    pub canonical_code: Option<String>,
    pub message: String,
    pub severity: Severity,
}

/// The plain value of a diagnostic signature.
pub open spec fn diagnostic_signature_view(d: DiagnosticSignature) -> (Option<Seq<char>>, Seq<char>, Severity) {
    (opt_view(d.canonical_code), d.message@, d.severity)
}

/// The plain value of an optional diagnostic signature.
pub open spec fn opt_signature_view(o: Option<DiagnosticSignature>) -> Option<(Option<Seq<char>>, Seq<char>, Severity)> {
    match o {
        Some(d) => Some(diagnostic_signature_view(d)),
        None => None,
    }
}

/// One mismatch of a comparison, identified well enough to find it again.
#[derive(Debug)]
pub struct MismatchSignature {
    pub side: String,
    pub category: String,
    pub canonical_code: Option<String>,
    pub baseline: Option<DiagnosticSignature>,
    pub candidate: Option<DiagnosticSignature>,
}

/// The plain value of a mismatch signature.
pub open spec fn signature_view(m: MismatchSignature) -> (
    Seq<char>,
    Seq<char>,
    Option<Seq<char>>,
    Option<(Option<Seq<char>>, Seq<char>, Severity)>,
    Option<(Option<Seq<char>>, Seq<char>, Severity)>,
) {
    (m.side@, m.category@, opt_view(m.canonical_code), opt_signature_view(m.baseline), opt_signature_view(m.candidate))
}

/// Whether two optional strings are equal.
fn opt_str_eq(a: &Option<String>, b: &Option<String>) -> (r: bool)
    ensures
        r == (opt_view(*a) == opt_view(*b)),
{
    match (a, b) {
        (Some(x), Some(y)) => str_eq(x.as_str(), y.as_str()),
        (None, None) => true,
        _ => false,
    }
}

impl DiagnosticSignature {
    /// Whether both signatures identify the same diagnostic.
    pub fn same(&self, other: &Self) -> (r: bool)
        ensures
            r == (diagnostic_signature_view(*self) == diagnostic_signature_view(*other)),
    {
        opt_str_eq(&self.canonical_code, &other.canonical_code) && str_eq(
            self.message.as_str(),
            other.message.as_str(),
        ) && self.severity == other.severity
    }
}

impl Clone for DiagnosticSignature {
    fn clone(&self) -> (r: Self)
        ensures
            r == *self,
    {
        DiagnosticSignature {
            canonical_code: clone_opt_string(&self.canonical_code),
            message: self.message.clone(),
            severity: self.severity,
        }
    }
}

fn clone_opt_signature(o: &Option<DiagnosticSignature>) -> (r: Option<DiagnosticSignature>)
    ensures
        r == *o,
{
    match o {
        Some(d) => Some(d.clone()),
        None => None,
    }
}

fn opt_signature_eq(a: &Option<DiagnosticSignature>, b: &Option<DiagnosticSignature>) -> (r: bool)
    ensures
        r == (opt_signature_view(*a) == opt_signature_view(*b)),
{
    match (a, b) {
        (Some(x), Some(y)) => x.same(y),
        (None, None) => true,
        _ => false,
    }
}

impl Clone for MismatchSignature {
    fn clone(&self) -> (r: Self)
        ensures
            r == *self,
    {
        MismatchSignature {
            side: self.side.clone(),
            category: self.category.clone(),
            canonical_code: clone_opt_string(&self.canonical_code),
            baseline: clone_opt_signature(&self.baseline),
            candidate: clone_opt_signature(&self.candidate),
        }
    }
}

impl PartialEq for MismatchSignature {
    fn eq(&self, other: &Self) -> (r: bool) {
        let r = str_eq(self.side.as_str(), other.side.as_str()) && str_eq(
            self.category.as_str(),
            other.category.as_str(),
        ) && opt_str_eq(&self.canonical_code, &other.canonical_code) && opt_signature_eq(
            &self.baseline,
            &other.baseline,
        ) && opt_signature_eq(&self.candidate, &other.candidate);
        r
    }
}

impl vstd::std_specs::cmp::PartialEqSpecImpl for MismatchSignature {
    open spec fn obeys_eq_spec() -> bool {
        true
    }

    open spec fn eq_spec(&self, other: &Self) -> bool {
        signature_view(*self) == signature_view(*other)
    }
}

/// The signature of one diagnostic: its canonical rule, message and severity.
fn diagnostic_signature(diagnostic: &Diagnostic) -> (r: DiagnosticSignature)
    ensures
        diagnostic_signature_view(r) == (
            opt_view(diagnostic.canonical_code),
            diagnostic.message@,
            diagnostic.severity,
        ),
{
    DiagnosticSignature {
        canonical_code: clone_opt_string(&diagnostic.canonical_code),
        message: diagnostic.message.clone(),
        severity: diagnostic.severity,
    }
}

/// The signature of a diagnostic that only `side` reported: the category is the
/// side followed by `_only`, and the diagnostic stands on the baseline side when
/// `side` is `baseline` and on the candidate side otherwise.
pub open spec fn unmatched_view(side: Seq<char>, d: Diagnostic) -> (
    Seq<char>,
    Seq<char>,
    Option<Seq<char>>,
    Option<(Option<Seq<char>>, Seq<char>, Severity)>,
    Option<(Option<Seq<char>>, Seq<char>, Severity)>,
) {
    let id = Some((opt_view(d.canonical_code), d.message@, d.severity));
    (
        side,
        side + "_only"@,
        opt_view(d.canonical_code),
        if side == "baseline"@ { id } else { None },
        if side == "baseline"@ { None } else { id },
    )
}

/// The signature of a diagnostic that only one side reported.
pub fn unmatched_signature(side: &str, diagnostic: Diagnostic) -> (r: MismatchSignature)
    ensures
        signature_view(r) == unmatched_view(side@, diagnostic),
{
    let canonical_code = clone_opt_string(&diagnostic.canonical_code);
    let identity = diagnostic_signature(&diagnostic);
    let (baseline, candidate) = if str_eq(side, "baseline") {
        (Some(identity), None)
    } else {
        (None, Some(identity))
    };
    let mut category = owned(side);
    push_str(&mut category, "_only");
    let r = MismatchSignature { side: owned(side), category, canonical_code, baseline, candidate };
    assert(signature_view(r) =~= unmatched_view(side@, diagnostic));
    r
}

/// The snake-case name of a match kind.
pub open spec fn match_kind_text(kind: MatchKind) -> Seq<char> {
    match kind {
        MatchKind::ExactMatch => "exact_match"@,
        MatchKind::ApproximateRuleMatch => "approximate_rule_match"@,
        MatchKind::ProbableMatch => "probable_match"@,
        MatchKind::SeverityChanged => "severity_changed"@,
        MatchKind::RangeChanged => "range_changed"@,
        MatchKind::MessageChanged => "message_changed"@,
    }
}

/// The snake-case name of a match kind.
fn match_kind_name(kind: MatchKind) -> (r: String)
    ensures
        r@ == match_kind_text(kind),
{
    match kind {
        MatchKind::ExactMatch => "exact_match".to_owned(),
        MatchKind::ApproximateRuleMatch => "approximate_rule_match".to_owned(),
        MatchKind::ProbableMatch => "probable_match".to_owned(),
        MatchKind::SeverityChanged => "severity_changed".to_owned(),
        MatchKind::RangeChanged => "range_changed".to_owned(),
        MatchKind::MessageChanged => "message_changed".to_owned(),
    }
}

/// The signature of a pair that matched but differs.
pub open spec fn pair_signature_ok(r: MismatchSignature, m: crate::matching::DiagnosticMatch) -> bool {
    &&& r.side@ == "both"@
    &&& r.category@ == match_kind_text(m.kind)
    &&& opt_view(r.canonical_code) == match opt_view(m.baseline.canonical_code) {
        Some(c) => Some(c),
        None => opt_view(m.candidate.canonical_code),
    }
    &&& opt_signature_view(r.baseline) == Some(
        (opt_view(m.baseline.canonical_code), m.baseline.message@, m.baseline.severity),
    )
    &&& opt_signature_view(r.candidate) == Some(
        (opt_view(m.candidate.canonical_code), m.candidate.message@, m.candidate.severity),
    )
}

/// A pair that is not an exact match.
pub open spec fn is_mismatch() -> spec_fn(crate::matching::DiagnosticMatch) -> bool {
    |m: crate::matching::DiagnosticMatch| m.kind != MatchKind::ExactMatch
}

/// The mismatches of a lint comparison: the baseline-only diagnostics, then the
/// candidate-only ones, then every pair that is not an exact match, each in the
/// comparison's order.
pub fn lint_mismatch_signatures(result: MatchResult) -> (r: Vec<MismatchSignature>)
    ensures
        ({
            let pairs = result.matches@.filter(is_mismatch());
            &&& r@.len() == result.baseline_only@.len() + result.candidate_only@.len() + pairs.len()
            &&& forall|i: int| 0 <= i < result.baseline_only@.len() ==> signature_view(#[trigger] r@[i]) == unmatched_view("baseline"@, result.baseline_only@[i])
            &&& forall|i: int| 0 <= i < result.candidate_only@.len() ==> signature_view(#[trigger] r@[result.baseline_only@.len() + i]) == unmatched_view("candidate"@, result.candidate_only@[i])
            &&& forall|i: int| 0 <= i < pairs.len() ==> pair_signature_ok(
                #[trigger] r@[result.baseline_only@.len() + result.candidate_only@.len() + i],
                pairs[i],
            )
        }),
{
    let mut signatures: Vec<MismatchSignature> = Vec::new();
    let ghost bo = result.baseline_only@;
    let ghost co = result.candidate_only@;
    let ghost ms = result.matches@;
    let mut i: usize = 0;
    while i < result.baseline_only.len()
        invariant
            0 <= i <= bo.len(),
            bo == result.baseline_only@,
            signatures@.len() == i,
            forall|k: int| 0 <= k < i ==> signature_view(#[trigger] signatures@[k]) == unmatched_view("baseline"@, bo[k]),
        decreases bo.len() - i,
    {
        let s = unmatched_signature("baseline", result.baseline_only[i].clone());
        proof {
            reveal_strlit("baseline");
        }
        signatures.push(s);
        i = i + 1;
    }
    let mut j: usize = 0;
    while j < result.candidate_only.len()
        invariant
            0 <= j <= co.len(),
            bo == result.baseline_only@,
            co == result.candidate_only@,
            signatures@.len() == bo.len() + j,
            forall|k: int| 0 <= k < bo.len() ==> signature_view(#[trigger] signatures@[k]) == unmatched_view("baseline"@, bo[k]),
            forall|k: int| 0 <= k < j ==> signature_view(#[trigger] signatures@[bo.len() + k]) == unmatched_view("candidate"@, co[k]),
        decreases co.len() - j,
    {
        let s = unmatched_signature("candidate", result.candidate_only[j].clone());
        proof {
            reveal_strlit("baseline");
            reveal_strlit("candidate");
            assert("candidate"@ != "baseline"@) by {
                assert("candidate"@[0] != "baseline"@[0]);
            }
        }
        signatures.push(s);
        j = j + 1;
    }
    let ghost pred = is_mismatch();
    let mut k: usize = 0;
    while k < result.matches.len()
        invariant
            0 <= k <= ms.len(),
            bo == result.baseline_only@,
            co == result.candidate_only@,
            ms == result.matches@,
            pred == is_mismatch(),
            signatures@.len() == bo.len() + co.len() + ms.take(k as int).filter(pred).len(),
            forall|x: int| 0 <= x < bo.len() ==> signature_view(#[trigger] signatures@[x]) == unmatched_view("baseline"@, bo[x]),
            forall|x: int| 0 <= x < co.len() ==> signature_view(#[trigger] signatures@[bo.len() + x]) == unmatched_view("candidate"@, co[x]),
            forall|x: int| 0 <= x < ms.take(k as int).filter(pred).len() ==> pair_signature_ok(
                #[trigger] signatures@[bo.len() + co.len() + x],
                ms.take(k as int).filter(pred)[x],
            ),
        decreases ms.len() - k,
    {
        let item = &result.matches[k];
        let ghost before = ms.take(k as int).filter(pred);
        proof {
            assert(ms.take(k + 1).drop_last() =~= ms.take(k as int));
            reveal(Seq::filter);
            assert(ms.take(k + 1).filter(pred) == if pred(ms[k as int]) { before.push(ms[k as int]) } else { before });
        }
        if item.kind != MatchKind::ExactMatch {
            let canonical_code = match &item.baseline.canonical_code {
                Some(c) => Some(c.clone()),
                None => clone_opt_string(&item.candidate.canonical_code),
            };
            let s = MismatchSignature {
                side: "both".to_owned(),
                category: match_kind_name(item.kind),
                canonical_code,
                baseline: Some(diagnostic_signature(&item.baseline)),
                candidate: Some(diagnostic_signature(&item.candidate)),
            };
            let ghost old_sigs = signatures@;
            signatures.push(s);
            proof {
                assert(pred(ms[k as int]));
                assert(pair_signature_ok(s, ms[k as int]));
                let now = ms.take(k + 1).filter(pred);
                assert(now == before.push(ms[k as int]));
                assert forall|x: int| 0 <= x < now.len() implies pair_signature_ok(
                    #[trigger] signatures@[bo.len() + co.len() + x],
                    now[x],
                ) by {
                    if x < before.len() {
                        assert(signatures@[bo.len() + co.len() + x] == old_sigs[bo.len() + co.len() + x]);
                    }
                }
            }
        } else {
            proof {
                assert(!pred(ms[k as int]));
            }
        }
        k = k + 1;
    }
    proof {
        assert(ms.take(ms.len() as int) =~= ms);
    }
    signatures
}

/// The value recorded for hash `h`, the latest one first.
pub open spec fn cached(v: Seq<(String, bool)>, h: Seq<char>) -> Option<bool>
    decreases v.len(),
{
    if v.len() == 0 {
        None
    } else if v.last().0@ == h {
        Some(v.last().1)
    } else {
        cached(v.drop_last(), h)
    }
}

/// Predicate answers by content hash, and how many answers had to be computed.
#[derive(Debug)]
pub struct PredicateCache {
    pub values: Vec<(String, bool)>,
    pub misses: usize,
}

impl Default for PredicateCache {
    fn default() -> (r: Self)
        ensures
            r.values@.len() == 0,
            r.misses == 0,
    {
        PredicateCache { values: Vec::new(), misses: 0 }
    }
}

impl PredicateCache {
    /// The recorded answer for a hash.
    fn lookup(&self, hash: &str) -> (r: Option<bool>)
        ensures
            r == cached(self.values@, hash@),
    {
        let mut i: usize = self.values.len();
        proof {
            assert(self.values@.take(i as int) =~= self.values@);
        }
        while i > 0
            invariant
                i <= self.values@.len(),
                cached(self.values@, hash@) == cached(self.values@.take(i as int), hash@),
            decreases i,
        {
            let ghost prefix = self.values@.take(i as int);
            proof {
                assert(prefix.drop_last() =~= self.values@.take(i - 1));
            }
            if str_eq(self.values[i - 1].0.as_str(), hash) {
                return Some(self.values[i - 1].1);
            }
            i = i - 1;
        }
        proof {
            assert(self.values@.take(0) =~= Seq::<(String, bool)>::empty());
        }
        None
    }

    /// Records the answer for a content.
    pub fn insert(&mut self, content: &str, value: bool)
        ensures
            final(self).misses == old(self).misses,
            cached(final(self).values@, sha256_hex(content@)) == Some(value),
            forall|h: Seq<char>| h != sha256_hex(content@) ==> #[trigger] cached(final(self).values@, h) == cached(old(self).values@, h),
    {
        let hash = sha256_hex_of(content);
        let ghost before = self.values@;
        self.values.push((hash, value));
        proof {
            assert(self.values@.drop_last() =~= before);
        }
    }

    /// The answer of `predicate` for `content`, computed only when no answer is
    /// recorded for the content's hash; every computation counts as a miss.
    pub fn evaluate<F: FnOnce(&str) -> bool>(&mut self, content: &str, predicate: F) -> (r: bool)
        requires
            call_requires(predicate, (content,)),
            old(self).misses < usize::MAX,
        ensures
            cached(final(self).values@, sha256_hex(content@)) == Some(r),
            match cached(old(self).values@, sha256_hex(content@)) {
                Some(v) => r == v && final(self).misses == old(self).misses && final(self).values@
                    == old(self).values@,
                None => call_ensures(predicate, (content,), r) && final(self).misses == old(
                    self,
                ).misses + 1,
            },
            forall|h: Seq<char>| h != sha256_hex(content@) ==> #[trigger] cached(final(self).values@, h) == cached(old(self).values@, h),
    {
        let hash = sha256_hex_of(content);
        if let Some(value) = self.lookup(hash.as_str()) {
            return value;
        }
        self.misses = self.misses + 1;
        let value = predicate(content);
        let ghost before = self.values@;
        self.values.push((hash, value));
        proof {
            assert(self.values@.drop_last() =~= before);
        }
        value
    }
}

/// The text that reports a mismatch index beyond the mismatches found.
pub open spec fn missing_mismatch_message(index: nat, count: nat) -> Seq<char> {
    "mismatch index "@ + decimal(index) + " does not exist; comparison produced "@ + decimal(count)
        + " mismatches"@
}

/// The mismatch that the request selects, by its index among the signatures.
pub fn select_signature(signatures: &Vec<MismatchSignature>, mismatch: usize) -> (r: Result<MismatchSignature, ConcordError>)
    ensures
        match r {
            Ok(s) => mismatch < signatures@.len() && s == signatures@[mismatch as int],
            Err(e) => mismatch >= signatures@.len() && e.kind == ErrorKind::Usage && e.message@
                == missing_mismatch_message(mismatch as nat, signatures@.len()),
        },
{
    if mismatch < signatures.len() {
        return Ok(signatures[mismatch].clone());
    }
    let mut message = owned("mismatch index ");
    push_decimal(&mut message, mismatch as u64);
    push_str(&mut message, " does not exist; comparison produced ");
    push_decimal(&mut message, signatures.len() as u64);
    push_str(&mut message, " mismatches");
    proof {
        assert(message@ =~= missing_mismatch_message(mismatch as nat, signatures@.len()));
    }
    Err(ConcordError { kind: ErrorKind::Usage, message })
}

/// Whether the signatures still include the selected one.
pub fn contains_signature(signatures: &Vec<MismatchSignature>, selected: &MismatchSignature) -> (r: bool)
    ensures
        r == exists|i: int| 0 <= i < signatures@.len() && signature_view(#[trigger] signatures@[i]) == signature_view(*selected),
{
    let mut i: usize = 0;
    while i < signatures.len()
        invariant
            0 <= i <= signatures@.len(),
            forall|k: int| 0 <= k < i ==> signature_view(#[trigger] signatures@[k]) != signature_view(*selected),
        decreases signatures.len() - i,
    {
        if signatures[i] == *selected {
            return true;
        }
        i = i + 1;
    }
    false
}

/// The number of `'\n'` in a text.
pub open spec fn newlines(s: Seq<char>) -> nat
    decreases s.len(),
{
    if s.len() == 0 {
        0
    } else {
        newlines(s.drop_last()) + if s.last() == '\n' {
            1nat
        } else {
            0nat
        }
    }
}

/// The number of lines of a text (`str::lines().count()`), 0 for an empty text.
pub open spec fn spec_line_count(s: Seq<char>) -> nat {
    if s.len() == 0 {
        0
    } else if s.last() == '\n' {
        newlines(s)
    } else {
        newlines(s) + 1
    }
}

/// The number of lines of a text.
pub fn line_count(content: &str) -> (r: usize)
    ensures
        r == spec_line_count(content@),
{
    let v = crate::text::chars_of(content);
    let mut count: usize = 0;
    let mut i: usize = 0;
    while i < v.len()
        invariant
            0 <= i <= v@.len(),
            v@ == content@,
            count == newlines(v@.take(i as int)),
            count <= i,
        decreases v.len() - i,
    {
        proof {
            assert(v@.take(i + 1).drop_last() =~= v@.take(i as int));
        }
        if v[i] == '\n' {
            count = count + 1;
        }
        i = i + 1;
    }
    proof {
        assert(v@.take(v@.len() as int) =~= v@);
    }
    if v.len() == 0 {
        0
    } else if v[v.len() - 1] == '\n' {
        count
    } else {
        proof {
            lemma_newlines_le(v@.drop_last());
            assert(newlines(v@) == newlines(v@.drop_last()));
        }
        count + 1
    }
}

proof fn lemma_newlines_le(s: Seq<char>)
    ensures
        newlines(s) <= s.len(),
    decreases s.len(),
{
    if s.len() > 0 {
        lemma_newlines_le(s.drop_last());
    }
}

/// Tenths of a KiB, rounded to the nearest tenth with ties to even.
pub open spec fn kib_tenths(bytes: nat) -> nat {
    let q = bytes * 10 / 1024;
    let rem = (bytes * 10) % 1024;
    if rem > 512 || (rem == 512 && q % 2 == 1) {
        q + 1
    } else {
        q
    }
}

/// A byte count as people read it: `512 B` below one KiB, `1.5 KiB` above.
pub open spec fn human_bytes_text(bytes: nat) -> Seq<char> {
    if bytes < 1024 {
        decimal(bytes) + " B"@
    } else {
        decimal(kib_tenths(bytes) / 10) + "."@ + decimal(kib_tenths(bytes) % 10) + " KiB"@
    }
}

/// A byte count as people read it.
fn human_bytes(bytes: usize) -> (r: String)
    ensures
        r@ == human_bytes_text(bytes as nat),
{
    let mut s = String::new();
    if bytes < 1024 {
        push_decimal(&mut s, bytes as u64);
        push_str(&mut s, " B");
        proof {
            assert(s@ =~= human_bytes_text(bytes as nat));
        }
        return s;
    }
    let scaled: u128 = bytes as u128 * 10;
    let q = scaled / 1024;
    let rem = scaled % 1024;
    let tenths = if rem > 512 || (rem == 512 && q % 2 == 1) { q + 1 } else { q };
    assert(tenths == kib_tenths(bytes as nat));
    assert(tenths / 10 <= u64::MAX) by (nonlinear_arith)
        requires tenths <= scaled / 1024 + 1, scaled == bytes * 10, bytes <= usize::MAX;
    push_decimal(&mut s, (tenths / 10) as u64);
    push_str(&mut s, ".");
    push_decimal(&mut s, (tenths % 10) as u64);
    push_str(&mut s, " KiB");
    proof {
        assert(s@ =~= human_bytes_text(bytes as nat));
    }
    s
}

/// What a reduction produced.
#[derive(Debug)]
pub struct ReductionResult {
    pub schema_version: u32,
    pub mode: ReduceMode,
    pub baseline: Tool,
    pub candidate: Tool,
    pub signature: MismatchSignature,
    pub original_lines: usize,
    pub original_bytes: usize,
    pub reduced_lines: usize,
    pub reduced_bytes: usize,
    pub attempts: usize,
    pub duration_ms: u128,
    pub output: String,
}

/// Spaces that right-align `text` in a field of `width` characters.
pub open spec fn pad_left(text: Seq<char>, width: nat) -> Seq<char> {
    Seq::new(if text.len() < width { (width - text.len()) as nat } else { 0 }, |i: int| ' ') + text
}

/// Appends a number right-aligned in a field of five characters (`{:>5}`).
fn push_padded(s: &mut String, n: usize)
    ensures
        final(s)@ == old(s)@ + pad_left(decimal(n as nat), 5),
{
    let digits = crate::text::decimal_string(n as u64);
    let len = crate::text::chars_of(digits.as_str()).len();
    let mut k: usize = len;
    let ghost start = s@;
    while k < 5
        invariant
            len <= k <= 5 || (len > 5 && k == len),
            len == digits@.len(),
            s@ == start + Seq::new((k - len) as nat, |i: int| ' '),
        decreases 5 - k,
    {
        push_char(s, ' ');
        proof {
            assert(s@ =~= start + Seq::new((k + 1 - len) as nat, |i: int| ' '));
        }
        k = k + 1;
    }
    push_str(s, digits.as_str());
    proof {
        assert(s@ =~= old(s)@ + pad_left(decimal(n as nat), 5));
    }
}

/// The summary that the terminal shows of a reduction.
pub open spec fn summary_text(r: ReductionResult, seconds: Seq<char>) -> Seq<char> {
    "Concord reduction\n\nOriginal:  "@ + pad_left(decimal(r.original_lines as nat), 5) + " lines, "@
        + human_bytes_text(r.original_bytes as nat) + "\nReduced:   "@ + pad_left(
        decimal(r.reduced_lines as nat),
        5,
    ) + " lines, "@ + human_bytes_text(r.reduced_bytes as nat) + "\nAttempts:  "@ + decimal(
        r.attempts as nat,
    ) + "\nDuration:  "@ + seconds + "s\nOutput:    "@ + r.output@
}

impl ReductionResult {
    /// The summary that the terminal shows; `seconds` is the duration in seconds with
    /// one decimal, as the caller renders it.
    pub fn terminal_summary(&self, seconds: &str) -> (r: String)
        ensures
            r@ == summary_text(*self, seconds@),
    {
        let mut s = owned("Concord reduction\n\nOriginal:  ");
        push_padded(&mut s, self.original_lines);
        push_str(&mut s, " lines, ");
        push_str(&mut s, human_bytes(self.original_bytes).as_str());
        push_str(&mut s, "\nReduced:   ");
        push_padded(&mut s, self.reduced_lines);
        push_str(&mut s, " lines, ");
        push_str(&mut s, human_bytes(self.reduced_bytes).as_str());
        push_str(&mut s, "\nAttempts:  ");
        push_decimal(&mut s, self.attempts as u64);
        push_str(&mut s, "\nDuration:  ");
        push_str(&mut s, seconds);
        push_str(&mut s, "s\nOutput:    ");
        push_str(&mut s, self.output.as_str());
        proof {
            assert(s@ =~= summary_text(*self, seconds@));
        }
        s
    }
}

/// The file name of the default reduction output: the input's stem, `.reduced`, and
/// the input's extension.
pub open spec fn output_name(p: Seq<char>) -> Seq<char> {
    let stem = match crate::capabilities::file_stem(p) {
        Some(s) => s,
        None => "repro"@,
    };
    stem + ".reduced"@ + match crate::capabilities::extension(p) {
        Some(e) => "."@ + e,
        None => Seq::empty(),
    }
}

/// Where a reduction is written when no output is given: beside the input, under
/// `output_name` (paths are taken `/`-separated, without `.` steps).
pub open spec fn default_output_path(p: Seq<char>) -> Seq<char> {
    let segs = segments(p);
    let dir = if crate::capabilities::file_name(p) is Some {
        segs.drop_last()
    } else {
        segs
    };
    let lead = if is_absolute(p) {
        seq!['/']
    } else {
        Seq::empty()
    };
    lead + if dir.len() == 0 {
        output_name(p)
    } else {
        join_slash(dir) + seq!['/'] + output_name(p)
    }
}

/// The default output path of a reduction.
pub fn default_output(input: &str) -> (r: String)
    ensures
        r@ == default_output_path(input@),
{
    let mut name = match crate::capabilities::file_stem_of(input) {
        Some(stem) => stem,
        None => owned("repro"),
    };
    push_str(&mut name, ".reduced");
    match crate::capabilities::extension_of(input) {
        Some(e) => {
            push_str(&mut name, ".");
            push_str(&mut name, e.as_str());
        },
        None => {},
    }
    proof {
        assert(name@ =~= output_name(input@));
    }
    let mut segs = path_segments(input);
    let has_name = crate::capabilities::file_name_of(input).is_some();
    if has_name {
        segs.pop();
        proof {
            assert(views(segs@) =~= segments(input@).drop_last());
        }
    }
    let mut r = String::new();
    let chars = crate::text::chars_of(input);
    if chars.len() > 0 && chars[0] == '/' {
        push_char(&mut r, '/');
    }
    if segs.len() > 0 {
        let dir = join_with_slash(&segs);
        push_str(&mut r, dir.as_str());
        push_char(&mut r, '/');
    }
    push_str(&mut r, name.as_str());
    proof {
        assert(r@ =~= default_output_path(input@));
    }
    r
}

/// Whether two paths name the same location by their components (same parent and
/// file name), for paths taken `/`-separated without `.` steps.
pub open spec fn same_location_spec(left: Seq<char>, right: Seq<char>) -> bool {
    is_absolute(left) == is_absolute(right) && segments(left) == segments(right)
}

/// Whether two paths name the same location by their components.
pub fn same_location(left: &str, right: &str) -> (r: bool)
    ensures
        r == same_location_spec(left@, right@),
{
    let l = crate::text::chars_of(left);
    let rc = crate::text::chars_of(right);
    let la = l.len() > 0 && l[0] == '/';
    let ra = rc.len() > 0 && rc[0] == '/';
    if la != ra {
        return false;
    }
    let ls = path_segments(left);
    let rs = path_segments(right);
    if ls.len() != rs.len() {
        proof {
            assert(views(ls@).len() != views(rs@).len());
        }
        return false;
    }
    let mut i: usize = 0;
    while i < ls.len()
        invariant
            0 <= i <= ls@.len(),
            ls@.len() == rs@.len(),
            views(ls@) == segments(left@),
            views(rs@) == segments(right@),
            forall|k: int| 0 <= k < i ==> views(ls@)[k] == views(rs@)[k],
        decreases ls.len() - i,
    {
        if !str_eq(ls[i].as_str(), rs[i].as_str()) {
            proof {
                assert(views(ls@)[i as int] != views(rs@)[i as int]);
            }
            return false;
        }
        i = i + 1;
    }
    proof {
        assert(views(ls@) =~= views(rs@));
    }
    true
}

/// The usage error of an output that would overwrite the input.
pub open spec fn overwrite_message() -> Seq<char> {
    "reduction output must not overwrite the original file"@
}

/// Checks that a reduction does not write over its input: the paths must
/// neither resolve to one file (`same_file`, found on disk) nor name the same
/// location.
pub fn distinct_output(input: &str, output: &str, same_file: bool) -> (r: Result<(), ConcordError>)
    ensures
        r is Ok <==> !(same_file || same_location_spec(input@, output@)),
        r matches Err(e) ==> (e.kind == ErrorKind::Usage && e.message@ == overwrite_message()),
{
    if same_file || same_location(input, output) {
        Err(ConcordError::usage("reduction output must not overwrite the original file"))
    } else {
        Ok(())
    }
}

/// The suffix of the working copy of a reduction: a dot and the input's
/// extension, or nothing.
pub fn working_suffix(input: &str) -> (r: String)
    ensures
        r@ == match crate::capabilities::extension(input@) {
            Some(e) => "."@ + e,
            None => Seq::empty(),
        },
{
    match crate::capabilities::extension_of(input) {
        Some(e) => {
            let mut r = owned(".");
            push_str(&mut r, e.as_str());
            proof {
                reveal_strlit(".");
            }
            r
        },
        None => String::new(),
    }
}

/// The error of a saved reproduction that lost the selected mismatch.
pub fn lost_mismatch(output: &str) -> (r: ConcordError)
    ensures
        r.kind == ErrorKind::Operational,
        r.message@ == "the saved reproduction no longer preserves the selected mismatch\noutput: "@ + output@,
{
    let mut message = owned("the saved reproduction no longer preserves the selected mismatch\noutput: ");
    push_str(&mut message, output);
    ConcordError { kind: ErrorKind::Operational, message }
}

/// The snake-case name of a file comparison status.
pub open spec fn format_status_text(status: FormatComparisonStatus) -> Seq<char> {
    match status {
        FormatComparisonStatus::Identical => "identical"@,
        FormatComparisonStatus::Different => "different"@,
        FormatComparisonStatus::BaselineNonIdempotent => "baseline_non_idempotent"@,
        FormatComparisonStatus::CandidateNonIdempotent => "candidate_non_idempotent"@,
        FormatComparisonStatus::BothNonIdempotent => "both_non_idempotent"@,
        FormatComparisonStatus::Unsupported => "unsupported"@,
        FormatComparisonStatus::Skipped => "skipped"@,
        FormatComparisonStatus::Failed => "failed"@,
    }
}

fn format_status_name(status: FormatComparisonStatus) -> (r: String)
    ensures
        r@ == format_status_text(status),
{
    match status {
        FormatComparisonStatus::Identical => "identical".to_owned(),
        FormatComparisonStatus::Different => "different".to_owned(),
        FormatComparisonStatus::BaselineNonIdempotent => "baseline_non_idempotent".to_owned(),
        FormatComparisonStatus::CandidateNonIdempotent => "candidate_non_idempotent".to_owned(),
        FormatComparisonStatus::BothNonIdempotent => "both_non_idempotent".to_owned(),
        FormatComparisonStatus::Unsupported => "unsupported".to_owned(),
        FormatComparisonStatus::Skipped => "skipped".to_owned(),
        FormatComparisonStatus::Failed => "failed".to_owned(),
    }
}

/// The error of a formatter that failed during a reduction.
pub open spec fn formatter_failed_message() -> Seq<char> {
    "a formatter failed while evaluating the reduction"@
}

/// The mismatches of a format comparison: none when both outputs agree, an
/// error when a formatter failed, and otherwise one mismatch on both sides
/// named after the status.
pub fn format_mismatch_signatures(status: FormatComparisonStatus) -> (r: Result<Vec<MismatchSignature>, ConcordError>)
    ensures
        status == FormatComparisonStatus::Failed ==> (r matches Err(e) && e.kind == ErrorKind::Operational
            && e.message@ == formatter_failed_message()),
        status == FormatComparisonStatus::Identical ==> (r matches Ok(v) && v@.len() == 0),
        status != FormatComparisonStatus::Failed && status != FormatComparisonStatus::Identical ==> (r matches Ok(v)
            && v@.len() == 1 && signature_view(v@[0]) == ("both"@, format_status_text(status), None::<Seq<char>>,
            None::<(Option<Seq<char>>, Seq<char>, Severity)>, None::<(Option<Seq<char>>, Seq<char>, Severity)>)),
{
    if status == FormatComparisonStatus::Failed {
        return Err(ConcordError::operational("a formatter failed while evaluating the reduction"));
    }
    if status == FormatComparisonStatus::Identical {
        return Ok(Vec::new());
    }
    let signature = MismatchSignature {
        side: owned("both"),
        category: format_status_name(status),
        canonical_code: None,
        baseline: None,
        candidate: None,
    };
    let mut v: Vec<MismatchSignature> = Vec::new();
    v.push(signature);
    Ok(v)
}

} // verus!
