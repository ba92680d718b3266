//! Rule canonicalization, rule mappings and deterministic diagnostic matching.
use vstd::prelude::*;

use crate::model::{opt_view, span_option_eq, tool_rank, Diagnostic, Tool};
use crate::order::{key_le, key_order, sorted_by_key, stable_sort, KeyPart, Keyed};
use crate::text::{compare_text, compare_u64, eq_ignore_ascii_case, eq_ignore_case, text_order, then, trim, trim_seq, Order};

verus! {

/// How closely two mapped rules correspond.
#[derive(Debug, Clone, Copy, PartialEq, Eq, Hash, Structural)]
pub enum MappingConfidence {
    Exact,
    Approximate,
}

} // verus!

verus! {

/// Position of the last occurrence of `c` in `s`, or -1.
pub open spec fn last_index_of(s: Seq<char>, c: char) -> int
    decreases s.len(),
{
    if s.len() == 0 {
        -1
    } else if s.last() == c {
        s.len() - 1
    } else {
        last_index_of(s.drop_last(), c)
    }
}

proof fn lemma_last_index_of(s: Seq<char>, c: char)
    ensures
        -1 <= last_index_of(s, c) < s.len(),
        last_index_of(s, c) >= 0 ==> s[last_index_of(s, c)] == c,
        forall|i: int| last_index_of(s, c) < i < s.len() ==> #[trigger] s[i] != c,
    decreases s.len(),
{
    if s.len() > 0 && s.last() != c {
        lemma_last_index_of(s.drop_last(), c);
        assert forall|i: int| last_index_of(s, c) < i < s.len() implies #[trigger] s[i] != c by {
            if i < s.len() - 1 {
                assert(s[i] == s.drop_last()[i]);
            }
        }
    }
}

/// Finds the last occurrence of `c` in `v`.
fn find_last(v: &Vec<char>, c: char) -> (r: Option<usize>)
    ensures
        match r {
            Some(k) => k < v@.len() && k as int == last_index_of(v@, c),
            None => last_index_of(v@, c) == -1,
        },
{
    proof {
        lemma_last_index_of(v@, c);
    }
    let mut i: usize = v.len();
    while i > 0 && v[i - 1] != c
        invariant
            0 <= i <= v@.len(),
            -1 <= last_index_of(v@, c) < v@.len(),
            last_index_of(v@, c) >= 0 ==> v@[last_index_of(v@, c)] == c,
            forall|k: int| last_index_of(v@, c) < k < v@.len() ==> #[trigger] v@[k] != c,
            last_index_of(v@, c) < i,
            forall|k: int| i <= k < v@.len() ==> #[trigger] v@[k] != c,
        decreases i,
    {
        i = i - 1;
    }
    if i == 0 {
        None
    } else {
        Some(i - 1)
    }
}

/// The rule inside a trailing parenthesis, as in `eslint(no-debugger)`.
pub open spec fn inner_rule(t: Seq<char>) -> Seq<char> {
    if t.len() > 0 && t.last() == ')' && last_index_of(t.drop_last(), '(') >= 0 {
        t.drop_last().skip(last_index_of(t.drop_last(), '(') + 1)
    } else {
        t
    }
}

/// The part after the last `/`, dropping namespaces such as `lint/suspicious/`.
pub open spec fn leaf_rule(s: Seq<char>) -> Seq<char> {
    if last_index_of(s, '/') >= 0 {
        s.skip(last_index_of(s, '/') + 1)
    } else {
        s
    }
}

/// A word separator for kebab case.
pub open spec fn is_separator(c: char) -> bool {
    c == '_' || c == ' ' || c == '-'
}

/// An ASCII capital letter.
pub open spec fn is_upper(c: char) -> bool {
    'A' <= c <= 'Z'
}

/// An ASCII small letter.
pub open spec fn is_lower(c: char) -> bool {
    'a' <= c <= 'z'
}

/// Whether the text ends with a dash.
pub open spec fn ends_with_dash(r: Seq<char>) -> bool {
    r.len() > 0 && r.last() == '-'
}

/// Kebab-case text for the first `n` characters of `v`: separators become
/// one dash, a capital letter that begins or ends a lower-case run starts a
/// new word, and letters are lower-cased.
pub open spec fn kebab_prefix(v: Seq<char>, n: int) -> Seq<char>
    decreases n,
{
    if n <= 0 || n > v.len() {
        Seq::empty()
    } else {
        let r = kebab_prefix(v, n - 1);
        let i = n - 1;
        let c = v[i];
        if is_separator(c) {
            if r.len() > 0 && !ends_with_dash(r) {
                r.push('-')
            } else {
                r
            }
        } else if is_upper(c) {
            let previous_lower = i > 0 && is_lower(v[i - 1]);
            let next_lower = i + 1 < v.len() && is_lower(v[i + 1]);
            let r2 = if r.len() > 0 && !ends_with_dash(r) && (previous_lower || next_lower) {
                r.push('-')
            } else {
                r
            };
            r2.push(crate::text::lower(c))
        } else {
            r.push(crate::text::lower(c))
        }
    }
}

/// `s` without leading dashes.
pub open spec fn strip_leading_dashes(s: Seq<char>) -> Seq<char>
    decreases s.len(),
{
    if s.len() > 0 && s[0] == '-' {
        strip_leading_dashes(s.drop_first())
    } else {
        s
    }
}

/// `s` without trailing dashes.
pub open spec fn strip_trailing_dashes(s: Seq<char>) -> Seq<char>
    decreases s.len(),
{
    if s.len() > 0 && s.last() == '-' {
        strip_trailing_dashes(s.drop_last())
    } else {
        s
    }
}

/// Kebab case of a rule name, without dashes at either end.
pub open spec fn kebab(v: Seq<char>) -> Seq<char> {
    strip_trailing_dashes(strip_leading_dashes(kebab_prefix(v, v.len() as int)))
}

/// The canonical base of a rule ID: trimmed, without the wrapping tool name
/// and namespaces, in kebab case.
pub open spec fn spec_canonical_base(rule: Seq<char>) -> Seq<char> {
    kebab(leaf_rule(inner_rule(crate::text::trim_seq(rule))))
}

/// A character that rule IDs are written with: ASCII letters and digits, space,
/// `-`, `_`, `/`, `@` and `.`.
pub open spec fn rule_id_char(c: char) -> bool {
    is_upper(c) || is_lower(c) || ('0' <= c <= '9') || c == ' ' || c == '-' || c == '_' || c == '/' || c == '@'
        || c == '.'
}

/// A character of a canonical rule name written with `rule_id_char`s.
pub open spec fn kebab_char(c: char) -> bool {
    is_lower(c) || ('0' <= c <= '9') || c == '-' || c == '@' || c == '.'
}

/// Kebab form: small letters, digits, `@`, `.` and single dashes between words.
pub open spec fn in_kebab_form(s: Seq<char>) -> bool {
    &&& forall|i: int| 0 <= i < s.len() ==> kebab_char(#[trigger] s[i])
    &&& s.len() > 0 ==> s[0] != '-' && s.last() != '-'
    &&& forall|i: int| 0 <= i < s.len() - 1 && #[trigger] s[i] == '-' ==> s[i + 1] != '-'
}

proof fn lemma_kebab_prefix_form(v: Seq<char>, n: int)
    requires
        forall|i: int| 0 <= i < v.len() ==> rule_id_char(#[trigger] v[i]) && v[i] != '/',
    ensures
        forall|i: int| 0 <= i < kebab_prefix(v, n).len() ==> kebab_char(#[trigger] kebab_prefix(v, n)[i]),
        kebab_prefix(v, n).len() > 0 ==> kebab_prefix(v, n)[0] != '-',
        forall|i: int| 0 <= i < kebab_prefix(v, n).len() - 1 && #[trigger] kebab_prefix(v, n)[i] == '-'
            ==> kebab_prefix(v, n)[i + 1] != '-',
    decreases n,
{
    if !(n <= 0 || n > v.len()) {
        lemma_kebab_prefix_form(v, n - 1);
        let r = kebab_prefix(v, n - 1);
        let c = v[n - 1];
        assert(rule_id_char(c) && c != '/');
        let out = kebab_prefix(v, n);
        if is_separator(c) {
            if r.len() > 0 && !ends_with_dash(r) {
                assert(out == r.push('-'));
                assert forall|i: int| 0 <= i < out.len() - 1 && #[trigger] out[i] == '-' implies out[i + 1] != '-' by {
                    if i == r.len() - 1 {
                        assert(out[i] == r.last());
                    } else {
                        assert(out[i] == r[i]);
                        assert(out[i + 1] == r[i + 1]);
                    }
                }
                assert forall|i: int| 0 <= i < out.len() implies kebab_char(#[trigger] out[i]) by {
                    if i < r.len() {
                        assert(out[i] == r[i]);
                    }
                }
            }
        } else {
            let lc = crate::text::lower(c);
            assert(kebab_char(lc) && lc != '-');
            let previous_lower = (n - 1) > 0 && is_lower(v[n - 2]);
            let next_lower = n < v.len() && is_lower(v[n]);
            let r2 = if is_upper(c) && r.len() > 0 && !ends_with_dash(r) && (previous_lower || next_lower) {
                r.push('-')
            } else {
                r
            };
            assert(out == r2.push(lc));
            assert forall|i: int| 0 <= i < r2.len() implies kebab_char(#[trigger] r2[i]) by {
                if i < r.len() {
                    assert(r2[i] == r[i]);
                }
            }
            assert forall|i: int| 0 <= i < r2.len() - 1 && #[trigger] r2[i] == '-' implies r2[i + 1] != '-' by {
                if r2 != r {
                    if i == r.len() - 1 {
                        assert(r2[i] == r.last());
                    } else {
                        assert(r2[i] == r[i]);
                        assert(r2[i + 1] == r[i + 1]);
                    }
                }
            }
            assert(r2.len() > 0 ==> r2[0] != '-') by {
                if r2 != r {
                    assert(r2[0] == r[0]);
                }
            }
            assert forall|i: int| 0 <= i < out.len() implies kebab_char(#[trigger] out[i]) by {
                if i < r2.len() {
                    assert(out[i] == r2[i]);
                }
            }
            assert forall|i: int| 0 <= i < out.len() - 1 && #[trigger] out[i] == '-' implies out[i + 1] != '-' by {
                assert(out[i] == r2[i]);
                if i + 1 < r2.len() {
                    assert(out[i + 1] == r2[i + 1]);
                }
            }
            if r2.len() > 0 {
                assert(out[0] == r2[0]);
            }
        }
    }
}

proof fn lemma_strip_trailing_prefix(s: Seq<char>)
    ensures
        exists|k: int| 0 <= k <= s.len() && strip_trailing_dashes(s) == s.take(k),
        strip_trailing_dashes(s).len() > 0 ==> strip_trailing_dashes(s).last() != '-',
    decreases s.len(),
{
    if s.len() > 0 && s.last() == '-' {
        lemma_strip_trailing_prefix(s.drop_last());
        let k = choose|k: int| 0 <= k <= s.drop_last().len() && strip_trailing_dashes(s.drop_last()) == s.drop_last().take(k);
        assert(s.drop_last().take(k) =~= s.take(k));
    } else {
        assert(s.take(s.len() as int) =~= s);
    }
}

proof fn lemma_kebab_form(v: Seq<char>)
    requires
        forall|i: int| 0 <= i < v.len() ==> rule_id_char(#[trigger] v[i]) && v[i] != '/',
    ensures
        in_kebab_form(kebab(v)),
{
    let p = kebab_prefix(v, v.len() as int);
    lemma_kebab_prefix_form(v, v.len() as int);
    if p.len() > 0 {
        assert(p[0] != '-');
        assert(strip_leading_dashes(p) == p);
    } else {
        assert(strip_leading_dashes(p) == p);
    }
    lemma_strip_trailing_prefix(p);
    let k = choose|k: int| 0 <= k <= p.len() && strip_trailing_dashes(p) == p.take(k);
    let s = kebab(v);
    assert(s == p.take(k));
    assert forall|i: int| 0 <= i < s.len() implies kebab_char(#[trigger] s[i]) by {
        assert(s[i] == p[i]);
    }
    assert forall|i: int| 0 <= i < s.len() - 1 && #[trigger] s[i] == '-' implies s[i + 1] != '-' by {
        assert(s[i] == p[i]);
        assert(s[i + 1] == p[i + 1]);
    }
    if s.len() > 0 {
        assert(s[0] == p[0]);
    }
}

proof fn lemma_kebab_prefix_fixed(s: Seq<char>, n: int)
    requires
        in_kebab_form(s),
        0 <= n <= s.len(),
    ensures
        kebab_prefix(s, n) == s.take(n),
    decreases n,
{
    if n > 0 {
        lemma_kebab_prefix_fixed(s, n - 1);
        let r = s.take(n - 1);
        let c = s[n - 1];
        assert(kebab_char(c));
        if c == '-' {
            assert(n - 1 > 0);
            assert(s[n - 2] != '-');
            assert(r.last() == s[n - 2]);
        } else {
            assert(!is_separator(c) && !is_upper(c));
            assert(crate::text::lower(c) == c);
        }
        assert(r.push(c) =~= s.take(n));
    } else {
        assert(s.take(0) =~= Seq::<char>::empty());
    }
}

/// A rule ID written with `rule_id_char`s has a canonical base in kebab form (no
/// `/`, `_`, space, capital letter or double dash, and no dash at either end), and
/// canonicalizing that base again gives it back.
pub proof fn lemma_canonical_base_idempotent(rule: Seq<char>)
    requires
        forall|i: int| 0 <= i < rule.len() ==> rule_id_char(#[trigger] rule[i]),
    ensures
        in_kebab_form(spec_canonical_base(rule)),
        spec_canonical_base(spec_canonical_base(rule)) == spec_canonical_base(rule),
{
    let t = trim_seq(rule);
    crate::text::lemma_trim_seq_part(rule);
    let (a, b) = choose|a: int, b: int| 0 <= a <= b <= rule.len() && t == rule.subrange(a, b);
    assert forall|i: int| 0 <= i < t.len() implies rule_id_char(#[trigger] t[i]) by {
        assert(t[i] == rule[a + i]);
    }
    if t.len() > 0 {
        assert(rule_id_char(t.last()));
    }
    assert(inner_rule(t) == t);
    let leaf = leaf_rule(t);
    lemma_last_index_of(t, '/');
    assert forall|i: int| 0 <= i < leaf.len() implies rule_id_char(#[trigger] leaf[i]) && leaf[i] != '/' by {
        if last_index_of(t, '/') >= 0 {
            assert(leaf[i] == t[last_index_of(t, '/') + 1 + i]);
        }
    }
    lemma_kebab_form(leaf);
    let s = kebab(leaf);
    assert(s == spec_canonical_base(rule));
    assert forall|i: int| 0 <= i < s.len() implies !crate::text::is_white(#[trigger] s[i]) by {
        assert(kebab_char(s[i]));
    }
    crate::text::lemma_trim_seq_part(s);
    assert(trim_seq(s) == s);
    if s.len() > 0 {
        assert(kebab_char(s.last()));
    }
    assert(inner_rule(s) == s);
    lemma_last_index_of(s, '/');
    if last_index_of(s, '/') >= 0 {
        assert(kebab_char(s[last_index_of(s, '/')]));
    }
    assert(leaf_rule(s) == s);
    lemma_kebab_prefix_fixed(s, s.len() as int);
    assert(s.take(s.len() as int) =~= s);
    let p = kebab_prefix(s, s.len() as int);
    assert(p == s);
    if s.len() > 0 {
        assert(strip_leading_dashes(s) == s);
        assert(strip_trailing_dashes(s) == s);
    } else {
        assert(strip_leading_dashes(s) == s);
        assert(strip_trailing_dashes(s) == s);
    }
}

fn is_ascii_upper(c: char) -> (r: bool)
    ensures
        r == is_upper(c),
{
    'A' <= c && c <= 'Z'
}

fn is_ascii_lower(c: char) -> (r: bool)
    ensures
        r == is_lower(c),
{
    'a' <= c && c <= 'z'
}

fn strip_dashes(r: &Vec<char>) -> (s: String)
    ensures
        s@ == strip_trailing_dashes(strip_leading_dashes(r@)),
{
    let mut start: usize = 0;
    proof {
        assert(r@.skip(0) =~= r@);
    }
    while start < r.len() && r[start] == '-'
        invariant
            0 <= start <= r@.len(),
            strip_leading_dashes(r@) == strip_leading_dashes(r@.skip(start as int)),
        decreases r.len() - start,
    {
        proof {
            assert(r@.skip(start as int).drop_first() =~= r@.skip(start + 1));
        }
        start = start + 1;
    }
    proof {
        assert(strip_leading_dashes(r@.skip(start as int)) == r@.skip(start as int));
    }
    let mut end: usize = r.len();
    while end > start && r[end - 1] == '-'
        invariant
            start <= end <= r@.len(),
            strip_trailing_dashes(r@.skip(start as int)) == strip_trailing_dashes(
                r@.subrange(start as int, end as int),
            ),
        decreases end,
    {
        proof {
            assert(r@.subrange(start as int, end as int).drop_last() =~= r@.subrange(
                start as int,
                end - 1,
            ));
        }
        end = end - 1;
    }
    proof {
        assert(r@.skip(start as int) =~= r@.subrange(start as int, r@.len() as int));
        assert(strip_trailing_dashes(r@.subrange(start as int, end as int)) == r@.subrange(
            start as int,
            end as int,
        ));
    }
    crate::text::string_from_range(r, start, end)
}

/// Kebab case of a rule name (see `kebab`).
pub fn to_kebab_case(value: &str) -> (r: String)
    ensures
        r@ == kebab(value@),
{
    let chars = crate::text::chars_of(value);
    let mut result: Vec<char> = Vec::new();
    let mut index: usize = 0;
    while index < chars.len()
        invariant
            0 <= index <= chars@.len(),
            chars@ == value@,
            result@ == kebab_prefix(chars@, index as int),
        decreases chars.len() - index,
    {
        let character = chars[index];
        let n = result.len();
        let ends_dash = n > 0 && result[n - 1] == '-';
        if character == '_' || character == ' ' || character == '-' {
            if !ends_dash && n > 0 {
                result.push('-');
            }
        } else if is_ascii_upper(character) {
            let previous_is_lower = index > 0 && is_ascii_lower(chars[index - 1]);
            let next_is_lower = index + 1 < chars.len() && is_ascii_lower(chars[index + 1]);
            if n > 0 && !ends_dash && (previous_is_lower || next_is_lower) {
                result.push('-');
            }
            result.push(crate::text::to_lower(character));
        } else {
            result.push(crate::text::to_lower(character));
        }
        index = index + 1;
    }
    strip_dashes(&result)
}

/// The canonical base of a rule ID (see `spec_canonical_base`).
pub fn canonical_base(rule: &str) -> (r: String)
    ensures
        r@ == spec_canonical_base(rule@),
{
    let trimmed = crate::text::trim(rule);
    let t = crate::text::chars_of(trimmed.as_str());
    let mut inner = t.clone();
    let n = t.len();
    if n > 0 && t[n - 1] == ')' {
        let mut without_end = t.clone();
        without_end.pop();
        proof {
            assert(without_end@ =~= t@.drop_last());
        }
        let open = find_last(&without_end, '(');
        if let Some(open) = open {
            let start = open + 1;
            proof {
                lemma_last_index_of(without_end@, '(');
            }
            let mut piece: Vec<char> = Vec::new();
            let mut k = start;
            while k < without_end.len()
                invariant
                    start <= k <= without_end@.len(),
                    piece@ == without_end@.subrange(start as int, k as int),
                decreases without_end.len() - k,
            {
                piece.push(without_end[k]);
                proof {
                    assert(piece@ =~= without_end@.subrange(start as int, k + 1));
                }
                k = k + 1;
            }
            proof {
                assert(piece@ =~= without_end@.skip(start as int));
            }
            inner = piece;
        }
    }
    proof {
        assert(inner@ == inner_rule(trimmed@));
    }
    proof {
        lemma_last_index_of(inner@, '/');
    }
    let slash = find_last(&inner, '/');
    let leaf = match slash {
        Some(k) => {
            let l = crate::text::string_from_range(&inner, k + 1, inner.len());
            proof {
                assert(inner@.subrange(k + 1, inner@.len() as int) =~= inner@.skip(k + 1));
            }
            l
        },
        None => crate::text::string_of(&inner),
    };
    to_kebab_case(leaf.as_str())
}

} // verus!

verus! {

/// A rule name and what it stands for.
pub type AliasPair = (Seq<char>, Seq<char>);

/// The map that results from inserting the pairs in order, later pairs
/// replacing earlier ones with the same key.
pub open spec fn pairs_map(s: Seq<AliasPair>) -> Map<Seq<char>, Seq<char>>
    decreases s.len(),
{
    if s.len() == 0 {
        Map::empty()
    } else {
        pairs_map(s.drop_last()).insert(s.last().0, s.last().1)
    }
}

/// Position of the last pair with key `k`, or -1.
pub open spec fn last_key_index(s: Seq<AliasPair>, k: Seq<char>) -> int
    decreases s.len(),
{
    if s.len() == 0 {
        -1
    } else if s.last().0 == k {
        s.len() - 1
    } else {
        last_key_index(s.drop_last(), k)
    }
}

proof fn lemma_pairs_map(s: Seq<AliasPair>, k: Seq<char>)
    ensures
        -1 <= last_key_index(s, k) < s.len(),
        pairs_map(s).contains_key(k) == (last_key_index(s, k) >= 0),
        last_key_index(s, k) >= 0 ==> s[last_key_index(s, k)].0 == k && pairs_map(s)[k] == s[last_key_index(s, k)].1,
        forall|i: int| last_key_index(s, k) < i < s.len() ==> #[trigger] s[i].0 != k,
    decreases s.len(),
{
    if s.len() > 0 {
        lemma_pairs_map(s.drop_last(), k);
        if s.last().0 != k {
            assert forall|i: int| last_key_index(s, k) < i < s.len() implies #[trigger] s[i].0 != k by {
                if i < s.len() - 1 {
                    assert(s[i] == s.drop_last()[i]);
                }
            }
        }
    }
}

/// The rule names of the built-in catalog, for which every linter has an
/// equivalent rule.
pub open spec fn builtin_catalog() -> Seq<Seq<char>> {
    seq![
        "no-debugger"@,
        "no-console"@,
        "no-undef"@,
        "eqeqeq"@,
        "no-unused-vars"@,
        "no-unreachable"@,
        "use-isnan"@,
        "constructor-super"@,
        "getter-return"@,
        "no-dupe-keys"@,
    ]
}

/// The built-in aliases: every catalog rule stands for itself, then the
/// names that other linters use for some of them.
pub open spec fn builtin_alias_pairs() -> Seq<AliasPair> {
    builtin_catalog().map_values(|r: Seq<char>| (r, r)) + seq![
        ("no-unused-variables"@, "no-unused-vars"@),
        ("no-unused-variable"@, "no-unused-vars"@),
        ("no-unreachable-code"@, "no-unreachable"@),
        ("use-is-nan"@, "use-isnan"@),
        ("use-constructor-super"@, "constructor-super"@),
        ("use-getter-return"@, "getter-return"@),
        ("no-duplicate-keys"@, "no-dupe-keys"@),
        ("no-duplicate-object-keys"@, "no-dupe-keys"@),
    ]
}

/// The pairs one alias group adds to a table: every canonical name of the
/// group stands for what the first one already stands for (or itself).
pub open spec fn group_pairs(m: Map<Seq<char>, Seq<char>>, g: crate::config::AliasConfig) -> Seq<
    AliasPair,
> {
    let values = crate::config::alias_values(g).map_values(|v: Seq<char>| spec_canonical_base(v));
    if values.len() == 0 {
        Seq::empty()
    } else {
        let representative = if m.contains_key(values[0]) {
            m[values[0]]
        } else {
            values[0]
        };
        values.map_values(|v: Seq<char>| (v, representative))
    }
}

/// The pairs of a table built from the built-in aliases and the groups.
pub open spec fn table_pairs(groups: Seq<crate::config::AliasConfig>) -> Seq<AliasPair>
    decreases groups.len(),
{
    if groups.len() == 0 {
        builtin_alias_pairs()
    } else {
        let p = table_pairs(groups.drop_last());
        p + group_pairs(pairs_map(p), groups.last())
    }
}

/// What a canonical rule name stands for in `m`: its entry, or itself.
pub open spec fn resolve_alias(m: Map<Seq<char>, Seq<char>>, base: Seq<char>) -> Seq<char> {
    if m.contains_key(base) {
        m[base]
    } else {
        base
    }
}

/// Maps canonical rule names to the representative that they stand for.
#[derive(Debug, Clone)]
pub struct AliasTable {
    entries: Vec<(String, String)>,
}

/// The views of the pairs of strings.
pub open spec fn entry_views(v: Seq<(String, String)>) -> Seq<AliasPair> {
    v.map_values(|e: (String, String)| (e.0@, e.1@))
}

impl View for AliasTable {
    type V = Map<Seq<char>, Seq<char>>;

    closed spec fn view(&self) -> Map<Seq<char>, Seq<char>> {
        pairs_map(entry_views(self.entries@))
    }
}

/// The built-in rule catalog.
pub fn built_in_rule_catalog() -> (r: Vec<String>)
    ensures
        r@.map_values(|s: String| s@) == builtin_catalog(),
{
    let mut r: Vec<String> = Vec::new();
    r.push("no-debugger".to_owned());
    r.push("no-console".to_owned());
    r.push("no-undef".to_owned());
    r.push("eqeqeq".to_owned());
    r.push("no-unused-vars".to_owned());
    r.push("no-unreachable".to_owned());
    r.push("use-isnan".to_owned());
    r.push("constructor-super".to_owned());
    r.push("getter-return".to_owned());
    r.push("no-dupe-keys".to_owned());
    proof {
        assert(r@.map_values(|s: String| s@) =~= builtin_catalog());
    }
    r
}

fn push_pair(v: &mut Vec<(String, String)>, a: &str, b: &str)
    ensures
        entry_views(final(v)@) == entry_views(old(v)@).push((a@, b@)),
{
    v.push((a.to_owned(), b.to_owned()));
    proof {
        assert(entry_views(final(v)@) =~= entry_views(old(v)@).push((a@, b@)));
    }
}

/// The built-in alias pairs.
fn built_in_aliases() -> (r: Vec<(String, String)>)
    ensures
        entry_views(r@) == builtin_alias_pairs(),
{
    let catalog = built_in_rule_catalog();
    let mut r: Vec<(String, String)> = Vec::new();
    let mut i: usize = 0;
    while i < catalog.len()
        invariant
            0 <= i <= catalog@.len(),
            catalog@.map_values(|s: String| s@) == builtin_catalog(),
            entry_views(r@) == builtin_catalog().take(i as int).map_values(
                |x: Seq<char>| (x, x),
            ),
        decreases catalog.len() - i,
    {
        push_pair(&mut r, catalog[i].as_str(), catalog[i].as_str());
        proof {
            assert(builtin_catalog()[i as int] == catalog@[i as int]@);
            assert(builtin_catalog().take(i + 1).map_values(|x: Seq<char>| (x, x)) =~= builtin_catalog().take(
                i as int,
            ).map_values(|x: Seq<char>| (x, x)).push((catalog@[i as int]@, catalog@[i as int]@)));
        }
        i = i + 1;
    }
    proof {
        assert(builtin_catalog().take(10) =~= builtin_catalog());
    }
    let ghost head = entry_views(r@);
    push_pair(&mut r, "no-unused-variables", "no-unused-vars");
    push_pair(&mut r, "no-unused-variable", "no-unused-vars");
    push_pair(&mut r, "no-unreachable-code", "no-unreachable");
    push_pair(&mut r, "use-is-nan", "use-isnan");
    push_pair(&mut r, "use-constructor-super", "constructor-super");
    push_pair(&mut r, "use-getter-return", "getter-return");
    push_pair(&mut r, "no-duplicate-keys", "no-dupe-keys");
    push_pair(&mut r, "no-duplicate-object-keys", "no-dupe-keys");
    proof {
        assert(entry_views(r@) =~= builtin_alias_pairs());
    }
    r
}

/// What `key` stands for among the pairs, scanning from the last one.
fn lookup(entries: &Vec<(String, String)>, key: &str) -> (r: Option<String>)
    ensures
        match r {
            Some(v) => pairs_map(entry_views(entries@)).contains_key(key@) && v@ == pairs_map(
                entry_views(entries@),
            )[key@],
            None => !pairs_map(entry_views(entries@)).contains_key(key@),
        },
{
    let ghost s = entry_views(entries@);
    proof {
        lemma_pairs_map(s, key@);
    }
    let mut i = entries.len();
    while i > 0 && !crate::text::str_eq(entries[i - 1].0.as_str(), key)
        invariant
            0 <= i <= entries@.len(),
            s == entry_views(entries@),
            last_key_index(s, key@) < i,
            -1 <= last_key_index(s, key@) < s.len(),
            last_key_index(s, key@) >= 0 ==> s[last_key_index(s, key@)].0 == key@,
            forall|k: int| last_key_index(s, key@) < k < s.len() ==> #[trigger] s[k].0 != key@,
        decreases i,
    {
        proof {
            assert(s[i - 1].0 == entries@[i - 1].0@);
        }
        i = i - 1;
    }
    if i == 0 {
        None
    } else {
        proof {
            assert(s[i - 1].0 == entries@[i - 1].0@);
            if last_key_index(s, key@) < i - 1 {
                assert(s[i - 1].0 != key@);
            }
        }
        Some(entries[i - 1].1.clone())
    }
}

impl AliasTable {
    /// The built-in aliases extended by the configured groups.
    pub fn new(configured: &Vec<crate::config::AliasConfig>) -> (r: Self)
        ensures
            r@ == pairs_map(table_pairs(configured@)),
    {
        let mut entries = built_in_aliases();
        let mut g: usize = 0;
        while g < configured.len()
            invariant
                0 <= g <= configured@.len(),
                entry_views(entries@) == table_pairs(configured@.take(g as int)),
            decreases configured.len() - g,
        {
            let group = &configured[g];
            let raw = group.values();
            let mut values: Vec<String> = Vec::new();
            let mut k: usize = 0;
            while k < raw.len()
                invariant
                    0 <= k <= raw@.len(),
                    values@.map_values(|s: String| s@) == crate::config::string_views(raw@).take(
                        k as int,
                    ).map_values(|v: Seq<char>| spec_canonical_base(v)),
                decreases raw.len() - k,
            {
                let ghost before = values@.map_values(|s: String| s@);
                values.push(canonical_base(raw[k].as_str()));
                proof {
                    assert(values@.map_values(|s: String| s@) =~= before.push(spec_canonical_base(raw@[k as int]@)));
                    assert(crate::config::string_views(raw@).take(k + 1).map_values(|v: Seq<char>| spec_canonical_base(v)) =~= crate::config::string_views(raw@).take(k as int).map_values(|v: Seq<char>| spec_canonical_base(v)).push(spec_canonical_base(raw@[k as int]@)));
                }
                k = k + 1;
            }
            let ghost prefix = configured@.take(g as int);
            let ghost expected_values = crate::config::alias_values(*group).map_values(|v: Seq<char>| spec_canonical_base(v));
            proof {
                assert(crate::config::string_views(raw@).take(raw@.len() as int) =~= crate::config::string_views(raw@));
                assert(values@.map_values(|s: String| s@) =~= expected_values);
                assert(configured@.take(g + 1).drop_last() =~= prefix);
                assert(configured@.take(g + 1).last() == *group);
            }
            if values.len() > 0 {
                let representative = match lookup(&entries, values[0].as_str()) {
                    Some(found) => found,
                    None => values[0].clone(),
                };
                let ghost before = entry_views(entries@);
                let mut k: usize = 0;
                while k < values.len()
                    invariant
                        0 <= k <= values@.len(),
                        entry_views(entries@) == before + values@.take(k as int).map_values(
                            |v: String| (v@, representative@),
                        ),
                    decreases values.len() - k,
                {
                    push_pair(&mut entries, values[k].as_str(), representative.as_str());
                    proof {
                        assert(values@.take(k + 1).map_values(|v: String| (v@, representative@)) =~= values@.take(k as int).map_values(|v: String| (v@, representative@)).push((values@[k as int]@, representative@)));
                    }
                    k = k + 1;
                }
                proof {
                    assert(values@.take(values@.len() as int) =~= values@);
                    assert(values@.map_values(|v: String| (v@, representative@)) =~= group_pairs(pairs_map(before), *group));
                }
            } else {
                proof {
                    assert(group_pairs(pairs_map(entry_views(entries@)), *group) =~= Seq::empty());
                    assert(entry_views(entries@) + Seq::<AliasPair>::empty() =~= entry_views(entries@));
                }
            }
            g = g + 1;
        }
        proof {
            assert(configured@.take(configured@.len() as int) =~= configured@);
        }
        AliasTable { entries }
    }

    /// The canonical name of a rule: its canonical base, replaced by what it
    /// stands for when the table has an entry for it.
    pub fn canonicalize(&self, rule: &str) -> (r: String)
        ensures
            r@ == resolve_alias(self@, spec_canonical_base(rule@)),
    {
        let base = canonical_base(rule);
        match lookup(&self.entries, base.as_str()) {
            Some(found) => found,
            None => base,
        }
    }
}

impl Default for AliasTable {
    fn default() -> (r: Self)
        ensures
            r@ == pairs_map(builtin_alias_pairs()),
    {
        AliasTable::new(&Vec::new())
    }
}

} // verus!

verus! {

/// The order of confidence values: exact before approximate.
pub open spec fn confidence_rank(c: MappingConfidence) -> int {
    match c {
        MappingConfidence::Exact => 0,
        MappingConfidence::Approximate => 1,
    }
}

/// A mapping between two rules, stored with its endpoints in ascending
/// `(tool, rule)` order.
#[derive(Debug, Clone)]
pub struct RuleMapping {
    pub left_tool: Tool,
    pub left_code: String,
    pub right_tool: Tool,
    pub right_code: String,
    pub confidence: MappingConfidence,
    pub configured: bool,
}

/// The plain values of a mapping.
pub struct MappingView {
    pub left_tool: Tool,
    pub left_code: Seq<char>,
    pub right_tool: Tool,
    pub right_code: Seq<char>,
    pub confidence: MappingConfidence,
    pub configured: bool,
}

impl View for RuleMapping {
    type V = MappingView;

    open spec fn view(&self) -> MappingView {
        MappingView {
            left_tool: self.left_tool,
            left_code: self.left_code@,
            right_tool: self.right_tool,
            right_code: self.right_code@,
            confidence: self.confidence,
            configured: self.configured,
        }
    }
}

/// The sort key of a mapping: its endpoints, confidence and origin.
pub open spec fn mapping_key(m: MappingView) -> Seq<KeyPart> {
    seq![
        KeyPart::Num(tool_rank(m.left_tool)),
        KeyPart::Text(m.left_code),
        KeyPart::Num(tool_rank(m.right_tool)),
        KeyPart::Text(m.right_code),
        KeyPart::Num(confidence_rank(m.confidence)),
        KeyPart::Num(if m.configured { 1 } else { 0 }),
    ]
}

impl Keyed for RuleMapping {
    open spec fn key(&self) -> Seq<KeyPart> {
        mapping_key(self@)
    }

    fn compare_key(&self, other: &Self) -> (r: Order) {
        let a = compare_u64(self.left_tool.rank() as u64, other.left_tool.rank() as u64);
        let b = compare_text(self.left_code.as_str(), other.left_code.as_str());
        let c = compare_u64(self.right_tool.rank() as u64, other.right_tool.rank() as u64);
        let d = compare_text(self.right_code.as_str(), other.right_code.as_str());
        let e = compare_u64(
            if self.confidence == MappingConfidence::Exact { 0 } else { 1 },
            if other.confidence == MappingConfidence::Exact { 0 } else { 1 },
        );
        let f = compare_u64(
            if self.configured { 1 } else { 0 },
            if other.configured { 1 } else { 0 },
        );
        let r = chain(a, chain(b, chain(c, chain(d, chain(e, f)))));
        proof {
            let x = self.key();
            let y = other.key();
            assert(x.drop_first().drop_first().drop_first().drop_first().drop_first().drop_first()
                =~= Seq::<KeyPart>::empty());
            assert(y.drop_first().drop_first().drop_first().drop_first().drop_first().drop_first()
                =~= Seq::<KeyPart>::empty());
            reveal_with_fuel(key_order, 7);
        }
        r
    }
}

/// `first` unless it is `Equal`, then `second`.
pub fn chain(first: Order, second: Order) -> (r: Order)
    ensures
        r == then(first, second),
{
    if first == Order::Equal {
        second
    } else {
        first
    }
}

/// Rule IDs are equal when their trimmed forms are equal up to ASCII case.
pub open spec fn rule_ids_equal(a: Seq<char>, b: Seq<char>) -> bool {
    eq_ignore_case(trim_seq(a), trim_seq(b))
}

/// Whether two rule IDs name the same rule.
pub fn rule_id_eq(left: &str, right: &str) -> (r: bool)
    ensures
        r == rule_ids_equal(left@, right@),
{
    let a = trim(left);
    let b = trim(right);
    eq_ignore_ascii_case(a.as_str(), b.as_str())
}

/// `(tool, rule)` endpoints in ascending order: tool rank, then rule text.
pub open spec fn endpoint_le(t1: Tool, c1: Seq<char>, t2: Tool, c2: Seq<char>) -> bool {
    tool_rank(t1) < tool_rank(t2) || (tool_rank(t1) == tool_rank(t2) && text_order(c1, c2)
        != Order::Greater)
}

/// A mapping with trimmed rules and its endpoints ordered.
pub open spec fn spec_ordered_mapping(
    left_tool: Tool,
    left_code: Seq<char>,
    right_tool: Tool,
    right_code: Seq<char>,
    confidence: MappingConfidence,
    configured: bool,
) -> MappingView {
    let l = trim_seq(left_code);
    let r = trim_seq(right_code);
    if endpoint_le(left_tool, l, right_tool, r) {
        MappingView {
            left_tool,
            left_code: l,
            right_tool,
            right_code: r,
            confidence,
            configured,
        }
    } else {
        MappingView {
            left_tool: right_tool,
            left_code: r,
            right_tool: left_tool,
            right_code: l,
            confidence,
            configured,
        }
    }
}

fn ordered_mapping(
    left_tool: Tool,
    left_code: &str,
    right_tool: Tool,
    right_code: &str,
    confidence: MappingConfidence,
    configured: bool,
) -> (r: RuleMapping)
    ensures
        r@ == spec_ordered_mapping(
            left_tool,
            left_code@,
            right_tool,
            right_code@,
            confidence,
            configured,
        ),
{
    let l = trim(left_code);
    let r = trim(right_code);
    let lr = left_tool.rank();
    let rr = right_tool.rank();
    let left_first = lr < rr || (lr == rr && compare_text(l.as_str(), r.as_str())
        != Order::Greater);
    if left_first {
        RuleMapping {
            left_tool,
            left_code: l,
            right_tool,
            right_code: r,
            confidence,
            configured,
        }
    } else {
        RuleMapping {
            left_tool: right_tool,
            left_code: r,
            right_tool: left_tool,
            right_code: l,
            confidence,
            configured,
        }
    }
}

/// The mappings from the entry at `left` to every later entry of an alias
/// group.
pub open spec fn alias_row(values: Seq<(Tool, Seq<char>)>, left: int) -> Seq<MappingView> {
    values.skip(left + 1).map_values(
        |v: (Tool, Seq<char>)|
            spec_ordered_mapping(
                values[left].0,
                values[left].1,
                v.0,
                v.1,
                MappingConfidence::Exact,
                true,
            ),
    )
}

/// The rows of an alias group from `left` on.
pub open spec fn alias_rows_from(values: Seq<(Tool, Seq<char>)>, left: int) -> Seq<MappingView>
    decreases values.len() - left,
{
    if left < 0 || left >= values.len() {
        Seq::empty()
    } else {
        alias_row(values, left) + alias_rows_from(values, left + 1)
    }
}

/// The pairwise exact mappings that one alias group yields: every entry with
/// every later entry.
pub open spec fn alias_mappings(values: Seq<(Tool, Seq<char>)>) -> Seq<MappingView> {
    alias_rows_from(values, 0)
}

/// The mappings that a configuration declares, before sorting: explicit
/// rules first, then every pair from every alias group.
pub open spec fn declared_mappings(
    rules: Seq<crate::config::RuleMappingConfig>,
    aliases: Seq<crate::config::AliasConfig>,
) -> Seq<MappingView> {
    rules.map_values(
        |r: crate::config::RuleMappingConfig|
            spec_ordered_mapping(
                r.baseline_tool,
                r.baseline@,
                r.candidate_tool,
                r.candidate@,
                r.confidence,
                true,
            ),
    ) + alias_group_mappings(aliases)
}

/// The mappings of all alias groups, group after group.
pub open spec fn alias_group_mappings(aliases: Seq<crate::config::AliasConfig>) -> Seq<
    MappingView,
>
    decreases aliases.len(),
{
    if aliases.len() == 0 {
        Seq::empty()
    } else {
        alias_group_mappings(aliases.drop_last()) + alias_mappings(
            crate::config::alias_tool_values(aliases.last()),
        )
    }
}

} // verus!

verus! {

/// The explicit confidence that the first mapping joining the two rules
/// gives, in either orientation.
pub open spec fn first_explicit(
    ms: Seq<MappingView>,
    left_tool: Tool,
    left_code: Seq<char>,
    right_tool: Tool,
    right_code: Seq<char>,
) -> Option<MappingConfidence>
    decreases ms.len(),
{
    if ms.len() == 0 {
        None
    } else {
        let m = ms[0];
        let direct = m.left_tool == left_tool && m.right_tool == right_tool && rule_ids_equal(
            m.left_code,
            left_code,
        ) && rule_ids_equal(m.right_code, right_code);
        let reverse = m.left_tool == right_tool && m.right_tool == left_tool && rule_ids_equal(
            m.left_code,
            right_code,
        ) && rule_ids_equal(m.right_code, left_code);
        if direct || reverse {
            Some(m.confidence)
        } else {
            first_explicit(ms.drop_first(), left_tool, left_code, right_tool, right_code)
        }
    }
}

/// The better (exact before approximate) of two optional confidences.
pub open spec fn better(a: Option<MappingConfidence>, b: Option<MappingConfidence>) -> Option<
    MappingConfidence,
> {
    match (a, b) {
        (Some(MappingConfidence::Exact), _) => Some(MappingConfidence::Exact),
        (_, Some(MappingConfidence::Exact)) => Some(MappingConfidence::Exact),
        (Some(x), _) => Some(x),
        (None, y) => y,
    }
}

/// Whether a mapping has `code` of `tool` as one endpoint and `other_tool`
/// at the other end.
pub open spec fn is_endpoint(m: MappingView, tool: Tool, code: Seq<char>, other_tool: Tool) -> bool {
    (m.left_tool == tool && m.right_tool == other_tool && rule_ids_equal(m.left_code, code)) || (
    m.right_tool == tool && m.left_tool == other_tool && rule_ids_equal(m.right_code, code))
}

/// The best confidence among the mappings that have the rule as an endpoint.
pub open spec fn best_endpoint(ms: Seq<MappingView>, tool: Tool, code: Seq<char>, other_tool: Tool) -> Option<
    MappingConfidence,
>
    decreases ms.len(),
{
    if ms.len() == 0 {
        None
    } else {
        let rest = best_endpoint(ms.drop_last(), tool, code, other_tool);
        if is_endpoint(ms.last(), tool, code, other_tool) {
            better(rest, Some(ms.last().confidence))
        } else {
            rest
        }
    }
}

/// How many configured mappings join the two tools, in either orientation,
/// with the given confidence.
pub open spec fn count_configured(ms: Seq<MappingView>, a: Tool, b: Tool, c: MappingConfidence) -> nat
    decreases ms.len(),
{
    if ms.len() == 0 {
        0
    } else {
        let m = ms.last();
        let hit = m.configured && ((m.left_tool == a && m.right_tool == b) || (m.left_tool == b
            && m.right_tool == a)) && m.confidence == c;
        count_configured(ms.drop_last(), a, b, c) + if hit { 1nat } else { 0nat }
    }
}

/// The known relationships between rules of different linters.
#[derive(Debug, Clone)]
pub struct RuleMappingTable {
    mappings: Vec<RuleMapping>,
    aliases: AliasTable,
}

/// The views of a list of mappings.
pub open spec fn mapping_views(v: Seq<RuleMapping>) -> Seq<MappingView> {
    v.map_values(|m: RuleMapping| m@)
}

impl RuleMappingTable {
    /// The mappings in table order.
    pub closed spec fn listed(&self) -> Seq<MappingView> {
        mapping_views(self.mappings@)
    }

    /// The aliases that canonicalize rule names.
    pub closed spec fn alias_view(&self) -> Map<Seq<char>, Seq<char>> {
        self.aliases@
    }
}

proof fn lemma_mapping_key_injective(a: MappingView, b: MappingView)
    requires
        mapping_key(a) == mapping_key(b),
    ensures
        a == b,
{
    assert(mapping_key(a)[0] == mapping_key(b)[0]);
    assert(mapping_key(a)[1] == mapping_key(b)[1]);
    assert(mapping_key(a)[2] == mapping_key(b)[2]);
    assert(mapping_key(a)[3] == mapping_key(b)[3]);
    assert(mapping_key(a)[4] == mapping_key(b)[4]);
    assert(mapping_key(a)[5] == mapping_key(b)[5]);
    assert(tool_rank(a.left_tool) == tool_rank(b.left_tool));
    assert(tool_rank(a.right_tool) == tool_rank(b.right_tool));
}

/// Appends the mappings of one alias group.
fn push_alias_mappings(raw: &mut Vec<RuleMapping>, values: &Vec<(Tool, String)>)
    ensures
        mapping_views(final(raw)@) == mapping_views(old(raw)@) + alias_mappings(
            values@.map_values(|p: (Tool, String)| (p.0, p.1@)),
        ),
{
    let ghost vs = values@.map_values(|p: (Tool, String)| (p.0, p.1@));
    let ghost base = mapping_views(raw@);
    let mut left: usize = 0;
    while left < values.len()
        invariant
            0 <= left <= values@.len(),
            vs == values@.map_values(|p: (Tool, String)| (p.0, p.1@)),
            base == mapping_views(old(raw)@),
            mapping_views(raw@) + alias_rows_from(vs, left as int) == base + alias_rows_from(vs, 0),
        decreases values.len() - left,
    {
        let ghost row_start = mapping_views(raw@);
        let mut right = left + 1;
        while right < values.len()
            invariant
                left < values@.len(),
                left + 1 <= right <= values@.len(),
                vs == values@.map_values(|p: (Tool, String)| (p.0, p.1@)),
                mapping_views(raw@) == row_start + alias_row(vs, left as int).take(
                    right - left - 1,
                ),
            decreases values.len() - right,
        {
            let m = ordered_mapping(
                values[left].0,
                values[left].1.as_str(),
                values[right].0,
                values[right].1.as_str(),
                MappingConfidence::Exact,
                true,
            );
            let ghost before = mapping_views(raw@);
            raw.push(m);
            proof {
                assert(mapping_views(raw@) =~= before.push(m@));
                assert(alias_row(vs, left as int)[right - left - 1] == m@);
                assert(alias_row(vs, left as int).take(right - left) =~= alias_row(
                    vs,
                    left as int,
                ).take(right - left - 1).push(m@));
            }
            right = right + 1;
        }
        proof {
            assert(alias_row(vs, left as int).take(values@.len() - left - 1) =~= alias_row(
                vs,
                left as int,
            ));
            assert(alias_rows_from(vs, left as int) == alias_row(vs, left as int)
                + alias_rows_from(vs, left + 1));
            assert(row_start + alias_rows_from(vs, left as int) =~= mapping_views(raw@)
                + alias_rows_from(vs, left + 1));
        }
        left = left + 1;
    }
    proof {
        assert(alias_rows_from(vs, values@.len() as int) =~= Seq::<MappingView>::empty());
        assert(mapping_views(raw@) + Seq::<MappingView>::empty() =~= mapping_views(raw@));
    }
}

impl RuleMappingTable {
    /// A table of the configured rules and alias groups, sorted, with
    /// duplicates removed.
    pub fn new(
        rules: &Vec<crate::config::RuleMappingConfig>,
        aliases: &Vec<crate::config::AliasConfig>,
    ) -> (r: Self)
        ensures
            r.alias_view() == pairs_map(table_pairs(aliases@)),
            forall|i: int, j: int|
                0 <= i < j < r.listed().len() ==> key_order(
                    mapping_key(#[trigger] r.listed()[i]),
                    mapping_key(#[trigger] r.listed()[j]),
                ) == Order::Less,
            forall|i: int|
                0 <= i < r.listed().len() ==> declared_mappings(rules@, aliases@).contains(
                    #[trigger] r.listed()[i],
                ),
            forall|i: int|
                0 <= i < declared_mappings(rules@, aliases@).len() ==> r.listed().contains(
                    #[trigger] declared_mappings(rules@, aliases@)[i],
                ),
    {
        let mut raw: Vec<RuleMapping> = Vec::new();
        let mut i: usize = 0;
        let ghost rule_views = rules@.map_values(
            |r: crate::config::RuleMappingConfig|
                spec_ordered_mapping(
                    r.baseline_tool,
                    r.baseline@,
                    r.candidate_tool,
                    r.candidate@,
                    r.confidence,
                    true,
                ),
        );
        while i < rules.len()
            invariant
                0 <= i <= rules@.len(),
                rule_views == rules@.map_values(
                    |r: crate::config::RuleMappingConfig|
                        spec_ordered_mapping(
                            r.baseline_tool,
                            r.baseline@,
                            r.candidate_tool,
                            r.candidate@,
                            r.confidence,
                            true,
                        ),
                ),
                mapping_views(raw@) == rule_views.take(i as int),
            decreases rules.len() - i,
        {
            let rule = &rules[i];
            let m = ordered_mapping(
                rule.baseline_tool,
                rule.baseline.as_str(),
                rule.candidate_tool,
                rule.candidate.as_str(),
                rule.confidence,
                true,
            );
            let ghost before = mapping_views(raw@);
            raw.push(m);
            proof {
                assert(mapping_views(raw@) =~= before.push(m@));
                assert(rule_views.take(i + 1) =~= rule_views.take(i as int).push(m@));
            }
            i = i + 1;
        }
        proof {
            assert(rule_views.take(rules@.len() as int) =~= rule_views);
        }
        let mut g: usize = 0;
        while g < aliases.len()
            invariant
                0 <= g <= aliases@.len(),
                mapping_views(raw@) == rule_views + alias_group_mappings(aliases@.take(g as int)),
            decreases aliases.len() - g,
        {
            let values = aliases[g].tool_values();
            push_alias_mappings(&mut raw, &values);
            proof {
                assert(aliases@.take(g + 1).drop_last() =~= aliases@.take(g as int));
                assert(aliases@.take(g + 1).last() == aliases@[g as int]);
                assert(mapping_views(raw@) =~= rule_views + alias_group_mappings(
                    aliases@.take(g + 1),
                ));
            }
            g = g + 1;
        }
        proof {
            assert(aliases@.take(aliases@.len() as int) =~= aliases@);
        }
        let ghost declared = mapping_views(raw@);
        let ghost raw_seq = raw@;
        let mappings = crate::order::sort_dedup_by_key(raw);
        let table = RuleMappingTable { mappings, aliases: AliasTable::new(aliases) };
        proof {
            assert(declared == declared_mappings(rules@, aliases@));
            assert forall|i: int, j: int| 0 <= i < j < table.listed().len() implies key_order(
                mapping_key(#[trigger] table.listed()[i]),
                mapping_key(#[trigger] table.listed()[j]),
            ) == Order::Less by {
                assert(table.listed()[i] == table.mappings@[i]@);
                assert(table.listed()[j] == table.mappings@[j]@);
                assert(key_order(table.mappings@[i].key(), table.mappings@[j].key()) == Order::Less);
            }
            assert forall|i: int| 0 <= i < table.listed().len() implies declared.contains(
                #[trigger] table.listed()[i],
            ) by {
                assert(raw_seq.contains(table.mappings@[i]));
                let k = choose|k: int| 0 <= k < raw_seq.len() && raw_seq[k] == table.mappings@[i];
                assert(declared[k] == table.listed()[i]);
            }
            assert forall|i: int| 0 <= i < declared.len() implies table.listed().contains(
                #[trigger] declared[i],
            ) by {
                assert(crate::order::has_key_of(table.mappings@, raw_seq[i]));
                let j = choose|j: int|
                    0 <= j < table.mappings@.len() && crate::order::same_key(
                        #[trigger] table.mappings@[j],
                        raw_seq[i],
                    );
                lemma_mapping_key_injective(table.mappings@[j]@, raw_seq[i]@);
                assert(table.listed()[j] == declared[i]);
            }
        }
        table
    }
}

} // verus!

verus! {

/// The confidence with which two diagnostics' rules correspond: the first
/// explicit mapping that joins them, else `Exact` when both rules
/// canonicalize to the same name; none when either has no rule.
pub open spec fn spec_confidence_between(
    listed: Seq<MappingView>,
    aliases: Map<Seq<char>, Seq<char>>,
    left_tool: Tool,
    left_code: Option<Seq<char>>,
    right_tool: Tool,
    right_code: Option<Seq<char>>,
) -> Option<MappingConfidence> {
    match (left_code, right_code) {
        (Some(a), Some(b)) => match first_explicit(listed, left_tool, a, right_tool, b) {
            Some(c) => Some(c),
            None => if resolve_alias(aliases, spec_canonical_base(a)) == resolve_alias(
                aliases,
                spec_canonical_base(b),
            ) {
                Some(MappingConfidence::Exact)
            } else {
                None
            },
        },
        _ => None,
    }
}

/// The confidence with which a rule is known to map to some rule of the
/// other tool: the best configured endpoint, else `Exact` for the built-in
/// catalog.
pub open spec fn spec_confidence_for_rule(
    listed: Seq<MappingView>,
    aliases: Map<Seq<char>, Seq<char>>,
    tool: Tool,
    code: Seq<char>,
    other_tool: Tool,
) -> Option<MappingConfidence> {
    match best_endpoint(listed, tool, code, other_tool) {
        Some(c) => Some(c),
        None => if builtin_catalog().contains(resolve_alias(aliases, spec_canonical_base(code))) {
            Some(MappingConfidence::Exact)
        } else {
            None
        },
    }
}

/// Whether two optional strings are both present.
fn both_codes<'a>(a: &'a Option<String>, b: &'a Option<String>) -> (r: Option<(&'a String, &'a String)>)
    ensures
        match r {
            Some((x, y)) => *a == Some(*x) && *b == Some(*y),
            None => a.is_none() || b.is_none(),
        },
{
    match (a, b) {
        (Some(x), Some(y)) => Some((x, y)),
        _ => None,
    }
}

fn in_catalog(name: &str) -> (r: bool)
    ensures
        r == builtin_catalog().contains(name@),
{
    let catalog = built_in_rule_catalog();
    let mut i: usize = 0;
    while i < catalog.len()
        invariant
            0 <= i <= catalog@.len(),
            catalog@.map_values(|s: String| s@) == builtin_catalog(),
            forall|k: int| 0 <= k < i ==> builtin_catalog()[k] != name@,
        decreases catalog.len() - i,
    {
        if crate::text::str_eq(catalog[i].as_str(), name) {
            proof {
                assert(builtin_catalog()[i as int] == catalog@[i as int]@);
            }
            return true;
        }
        proof {
            assert(builtin_catalog()[i as int] == catalog@[i as int]@);
        }
        i = i + 1;
    }
    proof {
        if builtin_catalog().contains(name@) {
            let k = choose|k: int| 0 <= k < builtin_catalog().len() && builtin_catalog()[k] == name@;
            assert(builtin_catalog()[k] != name@);
        }
    }
    false
}

impl RuleMappingTable {
    /// The confidence that the first explicit mapping joining the two rules
    /// gives, in either orientation.
    fn explicit_confidence(
        &self,
        left_tool: Tool,
        left_code: &str,
        right_tool: Tool,
        right_code: &str,
    ) -> (r: Option<MappingConfidence>)
        ensures
            r == first_explicit(self.listed(), left_tool, left_code@, right_tool, right_code@),
    {
        let mut i: usize = 0;
        proof {
            assert(self.listed().skip(0) =~= self.listed());
        }
        while i < self.mappings.len()
            invariant
                0 <= i <= self.mappings@.len(),
                first_explicit(self.listed(), left_tool, left_code@, right_tool, right_code@)
                    == first_explicit(
                    self.listed().skip(i as int),
                    left_tool,
                    left_code@,
                    right_tool,
                    right_code@,
                ),
            decreases self.mappings.len() - i,
        {
            let m = &self.mappings[i];
            let direct = m.left_tool == left_tool && m.right_tool == right_tool && rule_id_eq(
                m.left_code.as_str(),
                left_code,
            ) && rule_id_eq(m.right_code.as_str(), right_code);
            let reverse = m.left_tool == right_tool && m.right_tool == left_tool && rule_id_eq(
                m.left_code.as_str(),
                right_code,
            ) && rule_id_eq(m.right_code.as_str(), left_code);
            proof {
                assert(self.listed().skip(i as int)[0] == m@);
                assert(self.listed().skip(i as int).drop_first() =~= self.listed().skip(i + 1));
            }
            if direct || reverse {
                return Some(m.confidence);
            }
            i = i + 1;
        }
        None
    }

    /// The confidence with which the two diagnostics' rules correspond.
    pub fn confidence_between(&self, baseline: &Diagnostic, candidate: &Diagnostic) -> (r: Option<
        MappingConfidence,
    >)
        ensures
            r == spec_confidence_between(
                self.listed(),
                self.alias_view(),
                baseline.tool,
                opt_view(baseline.code),
                candidate.tool,
                opt_view(candidate.code),
            ),
    {
        let codes = both_codes(&baseline.code, &candidate.code);
        match codes {
            None => None,
            Some((baseline_code, candidate_code)) => {
                match self.explicit_confidence(
                    baseline.tool,
                    baseline_code.as_str(),
                    candidate.tool,
                    candidate_code.as_str(),
                ) {
                    Some(c) => Some(c),
                    None => {
                        let a = self.aliases.canonicalize(baseline_code.as_str());
                        let b = self.aliases.canonicalize(candidate_code.as_str());
                        if crate::text::str_eq(a.as_str(), b.as_str()) {
                            Some(MappingConfidence::Exact)
                        } else {
                            None
                        }
                    },
                }
            },
        }
    }

    /// The confidence with which `code` of `tool` is known to map to some
    /// rule of `other_tool`.
    pub fn confidence_for_rule(&self, tool: Tool, code: &str, other_tool: Tool) -> (r: Option<
        MappingConfidence,
    >)
        ensures
            r == spec_confidence_for_rule(
                self.listed(),
                self.alias_view(),
                tool,
                code@,
                other_tool,
            ),
    {
        let mut best: Option<MappingConfidence> = None;
        let mut i: usize = 0;
        while i < self.mappings.len()
            invariant
                0 <= i <= self.mappings@.len(),
                best == best_endpoint(self.listed().take(i as int), tool, code@, other_tool),
            decreases self.mappings.len() - i,
        {
            let m = &self.mappings[i];
            let direct = m.left_tool == tool && m.right_tool == other_tool && rule_id_eq(
                m.left_code.as_str(),
                code,
            );
            let reverse = m.right_tool == tool && m.left_tool == other_tool && rule_id_eq(
                m.right_code.as_str(),
                code,
            );
            proof {
                assert(self.listed().take(i + 1).drop_last() =~= self.listed().take(i as int));
                assert(self.listed().take(i + 1).last() == m@);
            }
            if direct || reverse {
                best = match (best, m.confidence) {
                    (Some(MappingConfidence::Exact), _) => Some(MappingConfidence::Exact),
                    (_, MappingConfidence::Exact) => Some(MappingConfidence::Exact),
                    (Some(x), _) => Some(x),
                    (None, y) => Some(y),
                };
            }
            i = i + 1;
        }
        proof {
            assert(self.listed().take(self.mappings@.len() as int) =~= self.listed());
        }
        if best.is_some() {
            return best;
        }
        let canonical = self.aliases.canonicalize(code);
        if in_catalog(canonical.as_str()) {
            Some(MappingConfidence::Exact)
        } else {
            None
        }
    }

    /// The numbers of configured exact and approximate mappings between the
    /// two tools, in either orientation.
    pub fn configured_counts(&self, left: Tool, right: Tool) -> (r: (usize, usize))
        ensures
            r.0 == count_configured(self.listed(), left, right, MappingConfidence::Exact),
            r.1 == count_configured(self.listed(), left, right, MappingConfidence::Approximate),
    {
        let mut exact: usize = 0;
        let mut approximate: usize = 0;
        let mut i: usize = 0;
        while i < self.mappings.len()
            invariant
                0 <= i <= self.mappings@.len(),
                exact == count_configured(
                    self.listed().take(i as int),
                    left,
                    right,
                    MappingConfidence::Exact,
                ),
                approximate == count_configured(
                    self.listed().take(i as int),
                    left,
                    right,
                    MappingConfidence::Approximate,
                ),
                exact + approximate <= i,
            decreases self.mappings.len() - i,
        {
            let m = &self.mappings[i];
            proof {
                assert(self.listed().take(i + 1).drop_last() =~= self.listed().take(i as int));
                assert(self.listed().take(i + 1).last() == m@);
            }
            if m.configured && ((m.left_tool == left && m.right_tool == right) || (m.left_tool
                == right && m.right_tool == left)) {
                match m.confidence {
                    MappingConfidence::Exact => exact = exact + 1,
                    MappingConfidence::Approximate => approximate = approximate + 1,
                }
            }
            i = i + 1;
        }
        proof {
            assert(self.listed().take(self.mappings@.len() as int) =~= self.listed());
        }
        (exact, approximate)
    }
}

impl Default for RuleMappingTable {
    fn default() -> (r: Self)
        ensures
            r.listed().len() == 0,
            r.alias_view() == pairs_map(builtin_alias_pairs()),
    {
        let r = RuleMappingTable::new(&Vec::new(), &Vec::new());
        proof {
            let d = declared_mappings(Seq::empty(), Seq::empty());
            assert(d =~= Seq::<MappingView>::empty());
            if r.listed().len() > 0 {
                assert(d.contains(r.listed()[0]));
            }
        }
        r
    }
}

/// Mapping lookups do not depend on which diagnostic is the baseline: the
/// correspondence between two rules is the same in both directions.
pub proof fn lemma_confidence_between_symmetric(
    listed: Seq<MappingView>,
    aliases: Map<Seq<char>, Seq<char>>,
    left_tool: Tool,
    left_code: Option<Seq<char>>,
    right_tool: Tool,
    right_code: Option<Seq<char>>,
)
    ensures
        spec_confidence_between(listed, aliases, left_tool, left_code, right_tool, right_code)
            == spec_confidence_between(listed, aliases, right_tool, right_code, left_tool, left_code),
{
    match (left_code, right_code) {
        (Some(a), Some(b)) => {
            lemma_first_explicit_symmetric(listed, left_tool, a, right_tool, b);
        },
        _ => {},
    }
}

/// Whether the mapping `m` joins the two rules, in either orientation.
pub open spec fn mapping_joins(m: MappingView, left_tool: Tool, left_code: Seq<char>, right_tool: Tool, right_code: Seq<char>) -> bool {
    ||| (m.left_tool == left_tool && m.right_tool == right_tool && rule_ids_equal(m.left_code, left_code)
        && rule_ids_equal(m.right_code, right_code))
    ||| (m.left_tool == right_tool && m.right_tool == left_tool && rule_ids_equal(m.left_code, right_code)
        && rule_ids_equal(m.right_code, left_code))
}

proof fn lemma_first_explicit_none(ms: Seq<MappingView>, lt: Tool, lc: Seq<char>, rt: Tool, rc: Seq<char>)
    requires
        forall|i: int| 0 <= i < ms.len() ==> !mapping_joins(#[trigger] ms[i], lt, lc, rt, rc),
    ensures
        first_explicit(ms, lt, lc, rt, rc) == None::<MappingConfidence>,
    decreases ms.len(),
{
    if ms.len() > 0 {
        assert(!mapping_joins(ms[0], lt, lc, rt, rc));
        assert forall|i: int| 0 <= i < ms.drop_first().len() implies !mapping_joins(#[trigger] ms.drop_first()[i], lt, lc, rt, rc) by {
            assert(ms.drop_first()[i] == ms[i + 1]);
        }
        lemma_first_explicit_none(ms.drop_first(), lt, lc, rt, rc);
    }
}

proof fn lemma_first_explicit_unique(ms: Seq<MappingView>, lt: Tool, lc: Seq<char>, rt: Tool, rc: Seq<char>, k: int)
    requires
        0 <= k < ms.len(),
        mapping_joins(ms[k], lt, lc, rt, rc),
        forall|i: int| 0 <= i < ms.len() && i != k ==> !mapping_joins(#[trigger] ms[i], lt, lc, rt, rc),
    ensures
        first_explicit(ms, lt, lc, rt, rc) == Some(ms[k].confidence),
    decreases ms.len(),
{
    if k > 0 {
        assert(!mapping_joins(ms[0], lt, lc, rt, rc));
        assert forall|i: int| 0 <= i < ms.drop_first().len() && i != k - 1 implies !mapping_joins(#[trigger] ms.drop_first()[i], lt, lc, rt, rc) by {
            assert(ms.drop_first()[i] == ms[i + 1]);
        }
        lemma_first_explicit_unique(ms.drop_first(), lt, lc, rt, rc, k - 1);
    }
}

/// How two diagnostics' rules correspond, when no two mappings join the same pair
/// of rules: none when either has no rule; else the confidence of the mapping that
/// joins them in either orientation, even where both rules canonicalize alike;
/// else `Exact` exactly when the rules have the same alias-resolved canonical name.
pub proof fn lemma_confidence_between_law(
    listed: Seq<MappingView>,
    aliases: Map<Seq<char>, Seq<char>>,
    left_tool: Tool,
    left_code: Option<Seq<char>>,
    right_tool: Tool,
    right_code: Option<Seq<char>>,
)
    requires
        forall|i: int, j: int|
            0 <= i < j < listed.len() && left_code is Some && right_code is Some && mapping_joins(
                #[trigger] listed[i],
                left_tool,
                left_code->0,
                right_tool,
                right_code->0,
            ) ==> !mapping_joins(#[trigger] listed[j], left_tool, left_code->0, right_tool, right_code->0),
    ensures
        spec_confidence_between(listed, aliases, left_tool, left_code, right_tool, right_code)
            == spec_confidence_between(listed, aliases, right_tool, right_code, left_tool, left_code),
        left_code is None || right_code is None ==> spec_confidence_between(
            listed,
            aliases,
            left_tool,
            left_code,
            right_tool,
            right_code,
        ) == None::<MappingConfidence>,
        forall|k: int|
            0 <= k < listed.len() && left_code is Some && right_code is Some && mapping_joins(
                #[trigger] listed[k],
                left_tool,
                left_code->0,
                right_tool,
                right_code->0,
            ) ==> spec_confidence_between(listed, aliases, left_tool, left_code, right_tool, right_code)
                == Some(listed[k].confidence),
        left_code is Some && right_code is Some && (forall|k: int|
            0 <= k < listed.len() ==> !mapping_joins(#[trigger] listed[k], left_tool, left_code->0, right_tool, right_code->0))
            ==> spec_confidence_between(listed, aliases, left_tool, left_code, right_tool, right_code) == if resolve_alias(
            aliases,
            spec_canonical_base(left_code->0),
        ) == resolve_alias(aliases, spec_canonical_base(right_code->0)) {
            Some(MappingConfidence::Exact)
        } else {
            None
        },
{
    lemma_confidence_between_symmetric(listed, aliases, left_tool, left_code, right_tool, right_code);
    if left_code is Some && right_code is Some {
        let a = left_code->0;
        let b = right_code->0;
        assert forall|k: int|
            0 <= k < listed.len() && mapping_joins(#[trigger] listed[k], left_tool, a, right_tool, b)
                implies spec_confidence_between(listed, aliases, left_tool, left_code, right_tool, right_code)
                == Some(listed[k].confidence) by {
            assert forall|i: int| 0 <= i < listed.len() && i != k implies !mapping_joins(#[trigger] listed[i], left_tool, a, right_tool, b) by {
                if i < k {
                    if mapping_joins(listed[i], left_tool, a, right_tool, b) {
                        assert(!mapping_joins(listed[k], left_tool, a, right_tool, b));
                    }
                } else {
                    assert(mapping_joins(listed[k], left_tool, a, right_tool, b));
                }
            }
            lemma_first_explicit_unique(listed, left_tool, a, right_tool, b, k);
        }
        if forall|k: int| 0 <= k < listed.len() ==> !mapping_joins(#[trigger] listed[k], left_tool, a, right_tool, b) {
            lemma_first_explicit_none(listed, left_tool, a, right_tool, b);
        }
    }
}

/// The law of `lemma_confidence_between_law` for a table built by
/// `RuleMappingTable::new` (as its contract describes the table): when no two
/// different declared rules or alias pairs join the two diagnostics' rules, the
/// correspondence of the diagnostics is symmetric, none without a rule, the joining
/// mapping's confidence where one joins them, and otherwise `Exact` exactly when
/// their alias-resolved canonical names agree.
pub proof fn lemma_table_confidence_law(
    rules: Seq<crate::config::RuleMappingConfig>,
    aliases: Seq<crate::config::AliasConfig>,
    t: RuleMappingTable,
    a: Diagnostic,
    b: Diagnostic,
)
    requires
        forall|i: int, j: int|
            0 <= i < j < t.listed().len() ==> key_order(
                mapping_key(#[trigger] t.listed()[i]),
                mapping_key(#[trigger] t.listed()[j]),
            ) == Order::Less,
        forall|i: int| 0 <= i < t.listed().len() ==> declared_mappings(rules, aliases).contains(#[trigger] t.listed()[i]),
        forall|x: MappingView, y: MappingView|
            #![trigger declared_mappings(rules, aliases).contains(x), declared_mappings(rules, aliases).contains(y)]
            declared_mappings(rules, aliases).contains(x) && declared_mappings(rules, aliases).contains(y) && x != y
                && a.code is Some && b.code is Some && mapping_joins(x, a.tool, a.code->0@, b.tool, b.code->0@)
                ==> !mapping_joins(y, a.tool, a.code->0@, b.tool, b.code->0@),
    ensures
        pair_confidence(t, a, b) == pair_confidence(t, b, a),
        a.code is None || b.code is None ==> pair_confidence(t, a, b) == None::<MappingConfidence>,
        forall|k: int|
            0 <= k < t.listed().len() && a.code is Some && b.code is Some && mapping_joins(
                #[trigger] t.listed()[k],
                a.tool,
                a.code->0@,
                b.tool,
                b.code->0@,
            ) ==> pair_confidence(t, a, b) == Some(t.listed()[k].confidence),
        a.code is Some && b.code is Some && (forall|k: int|
            0 <= k < t.listed().len() ==> !mapping_joins(#[trigger] t.listed()[k], a.tool, a.code->0@, b.tool, b.code->0@))
            ==> pair_confidence(t, a, b) == if resolve_alias(t.alias_view(), spec_canonical_base(a.code->0@)) == resolve_alias(
            t.alias_view(),
            spec_canonical_base(b.code->0@),
        ) {
            Some(MappingConfidence::Exact)
        } else {
            None
        },
{
    let l = t.listed();
    let lc = opt_view(a.code);
    let rc = opt_view(b.code);
    assert forall|i: int, j: int|
        0 <= i < j < l.len() && lc is Some && rc is Some && mapping_joins(
            #[trigger] l[i],
            a.tool,
            lc->0,
            b.tool,
            rc->0,
        ) implies !mapping_joins(#[trigger] l[j], a.tool, lc->0, b.tool, rc->0) by {
        crate::order::lemma_key_order(mapping_key(l[i]), mapping_key(l[j]));
        assert(l[i] != l[j]);
        assert(declared_mappings(rules, aliases).contains(l[i]));
        assert(declared_mappings(rules, aliases).contains(l[j]));
    }
    lemma_confidence_between_law(l, t.alias_view(), a.tool, lc, b.tool, rc);
    lemma_confidence_between_symmetric(l, t.alias_view(), a.tool, lc, b.tool, rc);
}

proof fn lemma_first_explicit_symmetric(
    ms: Seq<MappingView>,
    left_tool: Tool,
    left_code: Seq<char>,
    right_tool: Tool,
    right_code: Seq<char>,
)
    ensures
        first_explicit(ms, left_tool, left_code, right_tool, right_code) == first_explicit(
            ms,
            right_tool,
            right_code,
            left_tool,
            left_code,
        ),
    decreases ms.len(),
{
    if ms.len() > 0 {
        lemma_first_explicit_symmetric(ms.drop_first(), left_tool, left_code, right_tool, right_code);
    }
}

} // verus!

verus! {

/// Where a baseline diagnostic sits first in a sorted list.
pub open spec fn line_key(d: Diagnostic) -> int {
    match d.span {
        Some(s) => s.start_line as int,
        None => 0xffff_ffff,
    }
}

/// Where a baseline diagnostic sits second in a sorted list.
pub open spec fn column_key(d: Diagnostic) -> int {
    match d.span {
        Some(s) => s.start_column as int,
        None => 0xffff_ffff,
    }
}

/// The key part of an optional rule: absent rules sort first.
pub open spec fn code_key(c: Option<String>) -> Seq<KeyPart> {
    match c {
        Some(s) => seq![KeyPart::Num(1), KeyPart::Text(s@)],
        None => seq![KeyPart::Num(0)],
    }
}

/// The report order of diagnostics: path, start line, start column (absent
/// spans last), rule, message, fingerprint.
pub open spec fn diagnostic_key(d: Diagnostic) -> Seq<KeyPart> {
    seq![KeyPart::Text(d.path@), KeyPart::Num(line_key(d)), KeyPart::Num(column_key(d))]
        + code_key(d.code) + seq![KeyPart::Text(d.message@), KeyPart::Text(d.fingerprint@)]
}

fn start_line_key(d: &Diagnostic) -> (r: u64)
    ensures
        r as int == line_key(*d),
{
    match d.span {
        Some(s) => s.start_line as u64,
        None => 0xffff_ffff,
    }
}

fn start_column_key(d: &Diagnostic) -> (r: u64)
    ensures
        r as int == column_key(*d),
{
    match d.span {
        Some(s) => s.start_column as u64,
        None => 0xffff_ffff,
    }
}

impl Keyed for Diagnostic {
    open spec fn key(&self) -> Seq<KeyPart> {
        diagnostic_key(*self)
    }

    fn compare_key(&self, other: &Self) -> (r: Order) {
        let a = compare_text(self.path.as_str(), other.path.as_str());
        let b = compare_u64(start_line_key(self), start_line_key(other));
        let c = compare_u64(start_column_key(self), start_column_key(other));
        let tail = chain(
            compare_text(self.message.as_str(), other.message.as_str()),
            compare_text(self.fingerprint.as_str(), other.fingerprint.as_str()),
        );
        let d = match (&self.code, &other.code) {
            (None, None) => tail,
            (None, Some(_)) => Order::Less,
            (Some(_), None) => Order::Greater,
            (Some(x), Some(y)) => chain(compare_text(x.as_str(), y.as_str()), tail),
        };
        let r = chain(a, chain(b, chain(c, d)));
        proof {
            reveal_with_fuel(key_order, 8);
            let x = self.key();
            let y = other.key();
            assert(x.drop_first().drop_first().drop_first() =~= code_key(self.code) + seq![
                KeyPart::Text(self.message@),
                KeyPart::Text(self.fingerprint@),
            ]);
            assert(y.drop_first().drop_first().drop_first() =~= code_key(other.code) + seq![
                KeyPart::Text(other.message@),
                KeyPart::Text(other.fingerprint@),
            ]);
            let xt = x.drop_first().drop_first().drop_first();
            let yt = y.drop_first().drop_first().drop_first();
            if self.code is None && other.code is None {
                {
                    assert(xt.drop_first() =~= seq![KeyPart::Text(self.message@), KeyPart::Text(self.fingerprint@)]);
                    assert(yt.drop_first() =~= seq![KeyPart::Text(other.message@), KeyPart::Text(other.fingerprint@)]);
                    assert(xt.drop_first().drop_first().drop_first() =~= Seq::<KeyPart>::empty());
                    assert(yt.drop_first().drop_first().drop_first() =~= Seq::<KeyPart>::empty());
                }
            } else if self.code is Some && other.code is Some {
                {
                    assert(xt.drop_first().drop_first() =~= seq![KeyPart::Text(self.message@), KeyPart::Text(self.fingerprint@)]);
                    assert(yt.drop_first().drop_first() =~= seq![KeyPart::Text(other.message@), KeyPart::Text(other.fingerprint@)]);
                    assert(xt.drop_first().drop_first().drop_first().drop_first() =~= Seq::<KeyPart>::empty());
                    assert(yt.drop_first().drop_first().drop_first().drop_first() =~= Seq::<KeyPart>::empty());
                }
            }
        }
        r
    }
}

/// Sorts diagnostics into report order, stably.
pub fn sort_diagnostics(diagnostics: &mut Vec<Diagnostic>)
    ensures
        final(diagnostics)@ == stable_sort(old(diagnostics)@),
        sorted_by_key(final(diagnostics)@),
        final(diagnostics)@.to_multiset() == old(diagnostics)@.to_multiset(),
{
    let mut taken: Vec<Diagnostic> = Vec::new();
    std::mem::swap(&mut taken, diagnostics);
    *diagnostics = crate::order::sort_by_key(taken);
}

} // verus!

verus! {

/// How a baseline diagnostic and its paired candidate diagnostic relate.
#[derive(Debug, Clone, Copy, PartialEq, Eq, Hash, Structural)]
pub enum MatchKind {
    ExactMatch,
    ApproximateRuleMatch,
    ProbableMatch,
    SeverityChanged,
    RangeChanged,
    MessageChanged,
}

/// The declaration rank of a match kind, which reports sort by.
pub open spec fn kind_rank(k: MatchKind) -> int {
    match k {
        MatchKind::ExactMatch => 0,
        MatchKind::ApproximateRuleMatch => 1,
        MatchKind::ProbableMatch => 2,
        MatchKind::SeverityChanged => 3,
        MatchKind::RangeChanged => 4,
        MatchKind::MessageChanged => 5,
    }
}

fn kind_rank_of(k: MatchKind) -> (r: u64)
    ensures
        r as int == kind_rank(k),
{
    match k {
        MatchKind::ExactMatch => 0,
        MatchKind::ApproximateRuleMatch => 1,
        MatchKind::ProbableMatch => 2,
        MatchKind::SeverityChanged => 3,
        MatchKind::RangeChanged => 4,
        MatchKind::MessageChanged => 5,
    }
}

/// A baseline diagnostic paired with a candidate diagnostic.
#[derive(Debug)]
pub struct DiagnosticMatch {
    pub kind: MatchKind,
    pub mapping_confidence: Option<MappingConfidence>,
    pub baseline: Diagnostic,
    pub candidate: Diagnostic,
}

impl Clone for DiagnosticMatch {
    fn clone(&self) -> (r: Self)
        ensures
            r == *self,
    {
        DiagnosticMatch {
            kind: self.kind,
            mapping_confidence: self.mapping_confidence,
            baseline: self.baseline.clone(),
            candidate: self.candidate.clone(),
        }
    }
}

/// The report order of matches: baseline path, line and column, kind,
/// baseline fingerprint.
pub open spec fn match_key(m: DiagnosticMatch) -> Seq<KeyPart> {
    seq![
        KeyPart::Text(m.baseline.path@),
        KeyPart::Num(line_key(m.baseline)),
        KeyPart::Num(column_key(m.baseline)),
        KeyPart::Num(kind_rank(m.kind)),
        KeyPart::Text(m.baseline.fingerprint@),
    ]
}

impl Keyed for DiagnosticMatch {
    open spec fn key(&self) -> Seq<KeyPart> {
        match_key(*self)
    }

    fn compare_key(&self, other: &Self) -> (r: Order) {
        let a = compare_text(self.baseline.path.as_str(), other.baseline.path.as_str());
        let b = compare_u64(start_line_key(&self.baseline), start_line_key(&other.baseline));
        let c = compare_u64(start_column_key(&self.baseline), start_column_key(&other.baseline));
        let d = compare_u64(kind_rank_of(self.kind), kind_rank_of(other.kind));
        let e = compare_text(self.baseline.fingerprint.as_str(), other.baseline.fingerprint.as_str());
        let r = chain(a, chain(b, chain(c, chain(d, e))));
        proof {
            reveal_with_fuel(key_order, 6);
            let x = self.key();
            let y = other.key();
            assert(x.drop_first().drop_first().drop_first().drop_first().drop_first() =~= Seq::<KeyPart>::empty());
            assert(y.drop_first().drop_first().drop_first().drop_first().drop_first() =~= Seq::<KeyPart>::empty());
        }
        r
    }
}

/// Everything a comparison of two diagnostic lists produces.
#[derive(Debug)]
pub struct MatchResult {
    pub matches: Vec<DiagnosticMatch>,
    pub baseline_only: Vec<Diagnostic>,
    pub candidate_only: Vec<Diagnostic>,
    pub unmapped_baseline: Vec<Diagnostic>,
    pub unmapped_candidate: Vec<Diagnostic>,
}

/// The kind of a pair whose rules correspond exactly: the first of span,
/// severity and message that differs, or an exact match.
pub open spec fn spec_classify_correlated(b: Diagnostic, c: Diagnostic) -> MatchKind {
    if b.span != c.span {
        MatchKind::RangeChanged
    } else if b.severity != c.severity {
        MatchKind::SeverityChanged
    } else if b.message@ != c.message@ {
        MatchKind::MessageChanged
    } else {
        MatchKind::ExactMatch
    }
}

fn classify_correlated(baseline: &Diagnostic, candidate: &Diagnostic) -> (r: MatchKind)
    ensures
        r == spec_classify_correlated(*baseline, *candidate),
{
    if !span_option_eq(&baseline.span, &candidate.span) {
        MatchKind::RangeChanged
    } else if baseline.severity != candidate.severity {
        MatchKind::SeverityChanged
    } else if !crate::text::str_eq(baseline.message.as_str(), candidate.message.as_str()) {
        MatchKind::MessageChanged
    } else {
        MatchKind::ExactMatch
    }
}

/// Distance between two diagnostics' starts: line and column differences;
/// zero when neither has a span, the maximum when only one has.
pub open spec fn distance(b: Diagnostic, c: Diagnostic) -> (int, int) {
    match (b.span, c.span) {
        (Some(x), Some(y)) => (
            if x.start_line >= y.start_line { x.start_line - y.start_line } else { y.start_line - x.start_line },
            if x.start_column >= y.start_column { x.start_column - y.start_column } else { y.start_column - x.start_column },
        ),
        (None, None) => (0, 0),
        _ => (0xffff_ffff, 0xffff_ffff),
    }
}

fn position_distance(left: &Diagnostic, right: &Diagnostic) -> (r: (u32, u32))
    ensures
        r.0 as int == distance(*left, *right).0,
        r.1 as int == distance(*left, *right).1,
{
    match (&left.span, &right.span) {
        (Some(l), Some(r)) => (
            if l.start_line >= r.start_line { l.start_line - r.start_line } else { r.start_line - l.start_line },
            if l.start_column >= r.start_column { l.start_column - r.start_column } else { r.start_column - l.start_column },
        ),
        (None, None) => (0, 0),
        _ => (0xffff_ffff, 0xffff_ffff),
    }
}

/// A baseline index paired with a candidate index.
pub struct Pair {
    pub baseline: int,
    pub candidate: int,
    pub confidence: MappingConfidence,
}

/// The correspondence of two diagnostics under a table.
pub open spec fn pair_confidence(t: RuleMappingTable, b: Diagnostic, c: Diagnostic) -> Option<MappingConfidence> {
    spec_confidence_between(t.listed(), t.alias_view(), b.tool, opt_view(b.code), c.tool, opt_view(c.code))
}

/// The candidate indices already paired.
pub open spec fn candidates_used(p: Seq<Pair>) -> Set<int> {
    Set::new(|k: int| exists|q: int| 0 <= q < p.len() && p[q].candidate == k)
}

/// The baseline indices already paired.
pub open spec fn baselines_used(p: Seq<Pair>) -> Set<int> {
    Set::new(|k: int| exists|q: int| 0 <= q < p.len() && p[q].baseline == k)
}

/// Whether candidate `k` may pair with baseline `i`: same path, not yet
/// paired, and the rules correspond.
pub open spec fn eligible(b: Seq<Diagnostic>, c: Seq<Diagnostic>, t: RuleMappingTable, i: int, used: Set<int>, k: int) -> bool {
    &&& 0 <= i < b.len()
    &&& 0 <= k < c.len()
    &&& c[k].path@ == b[i].path@
    &&& !used.contains(k)
    &&& pair_confidence(t, b[i], c[k]) is Some
}

/// The preference among eligible candidates: nearest start, then exact
/// before approximate, then lowest index.
pub open spec fn choice_key(b: Seq<Diagnostic>, c: Seq<Diagnostic>, t: RuleMappingTable, i: int, k: int) -> Seq<KeyPart> {
    let d = distance(b[i], c[k]);
    seq![
        KeyPart::Num(d.0),
        KeyPart::Num(d.1),
        KeyPart::Num(match pair_confidence(t, b[i], c[k]) { Some(x) => confidence_rank(x), None => 2 }),
        KeyPart::Num(k),
    ]
}

/// Candidate `k` is the preferred eligible candidate for baseline `i`.
pub open spec fn is_best(b: Seq<Diagnostic>, c: Seq<Diagnostic>, t: RuleMappingTable, i: int, used: Set<int>, k: int) -> bool {
    eligible(b, c, t, i, used, k) && forall|m: int| #[trigger] eligible(b, c, t, i, used, m) ==> key_le(choice_key(b, c, t, i, k), choice_key(b, c, t, i, m))
}

/// The distance between two whole numbers.
pub open spec fn gap(a: int, b: int) -> int {
    if a >= b {
        a - b
    } else {
        b - a
    }
}

/// The candidate that a baseline diagnostic takes is a nearest one: among the
/// eligible candidates with a span (the baseline having one), none starts on a
/// line nearer to the baseline's start line, and none on an equally near line
/// starts at a column nearer to its start column.
pub proof fn lemma_best_is_nearest(
    b: Seq<Diagnostic>,
    c: Seq<Diagnostic>,
    t: RuleMappingTable,
    i: int,
    used: Set<int>,
    k: int,
    m: int,
)
    requires
        is_best(b, c, t, i, used, k),
        eligible(b, c, t, i, used, m),
        b[i].span is Some,
        c[k].span is Some,
        c[m].span is Some,
    ensures
        ({
            let x = b[i].span->0;
            let y = c[k].span->0;
            let z = c[m].span->0;
            ||| gap(x.start_line as int, y.start_line as int) < gap(x.start_line as int, z.start_line as int)
            ||| (gap(x.start_line as int, y.start_line as int) == gap(x.start_line as int, z.start_line as int)
                && gap(x.start_column as int, y.start_column as int) <= gap(x.start_column as int, z.start_column as int))
        }),
{
    assert(key_le(choice_key(b, c, t, i, k), choice_key(b, c, t, i, m)));
    reveal_with_fuel(key_order, 3);
    let ka = choice_key(b, c, t, i, k);
    let kb = choice_key(b, c, t, i, m);
    assert(ka.drop_first()[0] == ka[1]);
    assert(kb.drop_first()[0] == kb[1]);
}

/// A candidate that starts exactly where the baseline diagnostic starts wins over
/// every candidate that does not: when such a candidate is eligible, the one taken
/// starts at the baseline's start line and column too.
pub proof fn lemma_same_start_preferred(
    b: Seq<Diagnostic>,
    c: Seq<Diagnostic>,
    t: RuleMappingTable,
    i: int,
    used: Set<int>,
    k: int,
    m: int,
)
    requires
        is_best(b, c, t, i, used, k),
        eligible(b, c, t, i, used, m),
        b[i].span is Some,
        c[m].span is Some,
        c[m].span->0.start_line == b[i].span->0.start_line,
        c[m].span->0.start_column == b[i].span->0.start_column,
    ensures
        c[k].span is Some,
        c[k].span->0.start_line == b[i].span->0.start_line,
        c[k].span->0.start_column == b[i].span->0.start_column,
{
    assert(key_le(choice_key(b, c, t, i, k), choice_key(b, c, t, i, m)));
    reveal_with_fuel(key_order, 3);
    let ka = choice_key(b, c, t, i, k);
    let kb = choice_key(b, c, t, i, m);
    assert(ka.drop_first()[0] == ka[1]);
    assert(kb.drop_first()[0] == kb[1]);
    if c[k].span is Some {
        lemma_best_is_nearest(b, c, t, i, used, k, m);
    }
}

/// The pairs chosen for the first `n` baseline diagnostics: each in turn
/// takes its preferred eligible candidate, if any.
pub open spec fn pairing(b: Seq<Diagnostic>, c: Seq<Diagnostic>, t: RuleMappingTable, n: int) -> Seq<Pair>
    decreases n,
{
    if n <= 0 {
        Seq::empty()
    } else {
        let p = pairing(b, c, t, n - 1);
        let used = candidates_used(p);
        if exists|k: int| #[trigger] is_best(b, c, t, n - 1, used, k) {
            let k = choose|k: int| #[trigger] is_best(b, c, t, n - 1, used, k);
            p.push(Pair { baseline: n - 1, candidate: k, confidence: pair_confidence(t, b[n - 1], c[k])->0 })
        } else {
            p
        }
    }
}

/// The match that a pair produces: an approximate rule match when the rules
/// correspond only approximately, else classified by span, severity and
/// message.
pub open spec fn match_of(b: Seq<Diagnostic>, c: Seq<Diagnostic>, p: Pair) -> DiagnosticMatch {
    DiagnosticMatch {
        kind: if p.confidence == MappingConfidence::Approximate {
            MatchKind::ApproximateRuleMatch
        } else {
            spec_classify_correlated(b[p.baseline], c[p.candidate])
        },
        mapping_confidence: Some(p.confidence),
        baseline: b[p.baseline],
        candidate: c[p.candidate],
    }
}

/// Whether a leftover diagnostic's rule has a known mapping to the other tool.
pub open spec fn is_mapped(t: RuleMappingTable, d: Diagnostic, tool: Tool, other_tool: Tool) -> bool {
    match d.code {
        Some(code) => spec_confidence_for_rule(t.listed(), t.alias_view(), tool, code@, other_tool) is Some,
        None => false,
    }
}

/// The unpaired diagnostics among the first `n`, in order, that are mapped
/// (or, with `mapped` false, unmapped).
pub open spec fn leftovers(s: Seq<Diagnostic>, used: Set<int>, n: int, mapped: bool, t: RuleMappingTable, tool: Tool, other_tool: Tool) -> Seq<Diagnostic>
    decreases n,
{
    if n <= 0 || n > s.len() {
        Seq::empty()
    } else {
        let rest = leftovers(s, used, n - 1, mapped, t, tool, other_tool);
        if !used.contains(n - 1) && is_mapped(t, s[n - 1], tool, other_tool) == mapped {
            rest.push(s[n - 1])
        } else {
            rest
        }
    }
}

/// The leftovers of a sorted list come in its order.
proof fn lemma_leftovers_sorted(
    s: Seq<Diagnostic>,
    used: Set<int>,
    n: int,
    mapped: bool,
    t: RuleMappingTable,
    tool: Tool,
    other_tool: Tool,
)
    requires
        sorted_by_key(s),
    ensures
        sorted_by_key(leftovers(s, used, n, mapped, t, tool, other_tool)),
        forall|i: int| 0 <= i < leftovers(s, used, n, mapped, t, tool, other_tool).len() ==> exists|k: int|
            0 <= k < n && #[trigger] leftovers(s, used, n, mapped, t, tool, other_tool)[i] == s[k],
    decreases n,
{
    if !(n <= 0 || n > s.len()) {
        lemma_leftovers_sorted(s, used, n - 1, mapped, t, tool, other_tool);
        let rest = leftovers(s, used, n - 1, mapped, t, tool, other_tool);
        let l = leftovers(s, used, n, mapped, t, tool, other_tool);
        assert forall|i: int| 0 <= i < l.len() implies exists|k: int| 0 <= k < n && #[trigger] l[i] == s[k] by {
            if i < rest.len() {
                assert(l[i] == rest[i]);
                let k = choose|k: int| 0 <= k < n - 1 && #[trigger] rest[i] == s[k];
            } else {
                assert(l[i] == s[n - 1]);
            }
        }
        assert forall|i: int, j: int| 0 <= i < j < l.len() implies key_le(#[trigger] l[i].key(), #[trigger] l[j].key()) by {
            if j < rest.len() {
                assert(l[i] == rest[i] && l[j] == rest[j]);
            } else {
                assert(l[i] == rest[i]);
                let k = choose|k: int| 0 <= k < n - 1 && #[trigger] rest[i] == s[k];
                assert(l[j] == s[n - 1]);
                assert(key_le(s[k].key(), s[n - 1].key()));
            }
        }
    }
}

/// Every leftover that the list keeps has the asked-for mapping status.
proof fn lemma_leftovers_classified(
    s: Seq<Diagnostic>,
    used: Set<int>,
    n: int,
    mapped: bool,
    t: RuleMappingTable,
    tool: Tool,
    other_tool: Tool,
)
    ensures
        forall|i: int| 0 <= i < leftovers(s, used, n, mapped, t, tool, other_tool).len() ==> is_mapped(
            t,
            #[trigger] leftovers(s, used, n, mapped, t, tool, other_tool)[i],
            tool,
            other_tool,
        ) == mapped,
    decreases n,
{
    if n > 0 && n <= s.len() {
        lemma_leftovers_classified(s, used, n - 1, mapped, t, tool, other_tool);
        let rest = leftovers(s, used, n - 1, mapped, t, tool, other_tool);
        let all = leftovers(s, used, n, mapped, t, tool, other_tool);
        assert forall|i: int| 0 <= i < all.len() implies is_mapped(t, #[trigger] all[i], tool, other_tool) == mapped by {
            if i < rest.len() {
                assert(all[i] == rest[i]);
            }
        }
    }
}

/// One-sided diagnostics belong to rules with a known mapping to the other
/// tool, and unmapped ones to rules without one; a diagnostic without a rule ID
/// is never one-sided, always unmapped.
pub proof fn lemma_one_sided_rules_are_mapped(
    baseline: Seq<Diagnostic>,
    candidate: Seq<Diagnostic>,
    mappings: RuleMappingTable,
    baseline_tool: Tool,
    candidate_tool: Tool,
    r: MatchResult,
)
    requires
        compared(baseline, candidate, mappings, baseline_tool, candidate_tool, r),
    ensures
        forall|i: int| 0 <= i < r.baseline_only@.len() ==> is_mapped(mappings, #[trigger] r.baseline_only@[i], baseline_tool, candidate_tool)
            && r.baseline_only@[i].code is Some,
        forall|i: int| 0 <= i < r.unmapped_baseline@.len() ==> !is_mapped(mappings, #[trigger] r.unmapped_baseline@[i], baseline_tool, candidate_tool),
        forall|i: int| 0 <= i < r.candidate_only@.len() ==> is_mapped(mappings, #[trigger] r.candidate_only@[i], candidate_tool, baseline_tool)
            && r.candidate_only@[i].code is Some,
        forall|i: int| 0 <= i < r.unmapped_candidate@.len() ==> !is_mapped(mappings, #[trigger] r.unmapped_candidate@[i], candidate_tool, baseline_tool),
{
    let b = stable_sort(baseline);
    let c = stable_sort(candidate);
    let p = pairing(b, c, mappings, b.len() as int);
    lemma_leftovers_classified(b, baselines_used(p), b.len() as int, true, mappings, baseline_tool, candidate_tool);
    lemma_leftovers_classified(b, baselines_used(p), b.len() as int, false, mappings, baseline_tool, candidate_tool);
    lemma_leftovers_classified(c, candidates_used(p), c.len() as int, true, mappings, candidate_tool, baseline_tool);
    lemma_leftovers_classified(c, candidates_used(p), c.len() as int, false, mappings, candidate_tool, baseline_tool);
}

proof fn lemma_best_unique(b: Seq<Diagnostic>, c: Seq<Diagnostic>, t: RuleMappingTable, i: int, used: Set<int>, k1: int, k2: int)
    requires
        is_best(b, c, t, i, used, k1),
        is_best(b, c, t, i, used, k2),
    ensures
        k1 == k2,
{
    let x = choice_key(b, c, t, i, k1);
    let y = choice_key(b, c, t, i, k2);
    assert(key_le(x, y));
    assert(key_le(y, x));
    crate::order::lemma_key_order(x, y);
    assert(x == y);
    assert(x[3] == y[3]);
}

} // verus!

verus! {

/// The preferred eligible candidate for baseline `i`, given which candidates
/// are already paired.
fn best_candidate(
    b: &Vec<Diagnostic>,
    c: &Vec<Diagnostic>,
    t: &RuleMappingTable,
    i: usize,
    used: &Vec<bool>,
    ghost_used: Ghost<Set<int>>,
) -> (r: Option<(usize, MappingConfidence)>)
    requires
        i < b@.len(),
        used@.len() == c@.len(),
        forall|k: int| 0 <= k < c@.len() ==> used@[k] == ghost_used@.contains(k),
    ensures
        match r {
            Some((k, conf)) => is_best(b@, c@, *t, i as int, ghost_used@, k as int) && pair_confidence(*t, b@[i as int], c@[k as int]) == Some(conf),
            None => forall|k: int| !eligible(b@, c@, *t, i as int, ghost_used@, k),
        },
{
    let mut best: Option<(usize, MappingConfidence, u32, u32)> = None;
    let mut k: usize = 0;
    while k < c.len()
        invariant
            i < b@.len(),
            0 <= k <= c@.len(),
            used@.len() == c@.len(),
            forall|m: int| 0 <= m < c@.len() ==> used@[m] == ghost_used@.contains(m),
            match best {
                Some((j, conf, d0, d1)) => {
                    &&& j < k
                    &&& eligible(b@, c@, *t, i as int, ghost_used@, j as int)
                    &&& pair_confidence(*t, b@[i as int], c@[j as int]) == Some(conf)
                    &&& d0 as int == distance(b@[i as int], c@[j as int]).0
                    &&& d1 as int == distance(b@[i as int], c@[j as int]).1
                    &&& forall|m: int| 0 <= m < k && #[trigger] eligible(b@, c@, *t, i as int, ghost_used@, m) ==> key_le(choice_key(b@, c@, *t, i as int, j as int), choice_key(b@, c@, *t, i as int, m))
                },
                None => forall|m: int| 0 <= m < k ==> !#[trigger] eligible(b@, c@, *t, i as int, ghost_used@, m),
            },
        decreases c.len() - k,
    {
        if !used[k] && crate::text::str_eq(c[k].path.as_str(), b[i].path.as_str()) {
            match t.confidence_between(&b[i], &c[k]) {
                Some(conf) => {
                    let d = position_distance(&b[i], &c[k]);
                    let better_choice = match best {
                        None => true,
                        Some((j, best_conf, d0, d1)) => {
                            let order = chain(
                                compare_u64(d.0 as u64, d0 as u64),
                                chain(
                                    compare_u64(d.1 as u64, d1 as u64),
                                    chain(
                                        compare_u64(
                                            if conf == MappingConfidence::Exact { 0 } else { 1 },
                                            if best_conf == MappingConfidence::Exact { 0 } else { 1 },
                                        ),
                                        compare_u64(k as u64, j as u64),
                                    ),
                                ),
                            );
                            proof {
                                reveal_with_fuel(key_order, 5);
                                let x = choice_key(b@, c@, *t, i as int, k as int);
                                let y = choice_key(b@, c@, *t, i as int, j as int);
                                assert(x.drop_first().drop_first().drop_first().drop_first() =~= Seq::<KeyPart>::empty());
                                assert(y.drop_first().drop_first().drop_first().drop_first() =~= Seq::<KeyPart>::empty());
                                assert(order == key_order(x, y));
                                crate::order::lemma_key_order(x, y);
                            }
                            order == Order::Less
                        },
                    };
                    if better_choice {
                        proof {
                            match best {
                                Some((j, best_conf, d0, d1)) => {
                                    assert forall|m: int| 0 <= m < k + 1 && #[trigger] eligible(b@, c@, *t, i as int, ghost_used@, m) implies key_le(choice_key(b@, c@, *t, i as int, k as int), choice_key(b@, c@, *t, i as int, m)) by {
                                        if m < k {
                                            crate::order::lemma_key_order(choice_key(b@, c@, *t, i as int, k as int), choice_key(b@, c@, *t, i as int, j as int));
                                            crate::order::lemma_key_le_transitive(choice_key(b@, c@, *t, i as int, k as int), choice_key(b@, c@, *t, i as int, j as int), choice_key(b@, c@, *t, i as int, m));
                                        } else {
                                            crate::order::lemma_key_order(choice_key(b@, c@, *t, i as int, k as int), choice_key(b@, c@, *t, i as int, k as int));
                                        }
                                    }
                                },
                                None => {
                                    assert forall|m: int| 0 <= m < k + 1 && #[trigger] eligible(b@, c@, *t, i as int, ghost_used@, m) implies key_le(choice_key(b@, c@, *t, i as int, k as int), choice_key(b@, c@, *t, i as int, m)) by {
                                        crate::order::lemma_key_order(choice_key(b@, c@, *t, i as int, k as int), choice_key(b@, c@, *t, i as int, k as int));
                                    }
                                },
                            }
                        }
                        best = Some((k, conf, d.0, d.1));
                    } else {
                        proof {
                            match best {
                                Some((j, best_conf, d0, d1)) => {
                                    assert forall|m: int| 0 <= m < k + 1 && #[trigger] eligible(b@, c@, *t, i as int, ghost_used@, m) implies key_le(choice_key(b@, c@, *t, i as int, j as int), choice_key(b@, c@, *t, i as int, m)) by {
                                        if m == k {
                                            crate::order::lemma_key_order(choice_key(b@, c@, *t, i as int, k as int), choice_key(b@, c@, *t, i as int, j as int));
                                        }
                                    }
                                },
                                None => {},
                            }
                        }
                    }
                },
                None => {},
            }
        }
        k = k + 1;
    }
    match best {
        Some((j, conf, _, _)) => Some((j, conf)),
        None => None,
    }
}

/// Collects the unpaired diagnostics of `s` that are mapped, or unmapped.
fn collect_leftovers(
    s: &Vec<Diagnostic>,
    used: &Vec<bool>,
    ghost_used: Ghost<Set<int>>,
    want_mapped: bool,
    t: &RuleMappingTable,
    tool: Tool,
    other_tool: Tool,
) -> (r: Vec<Diagnostic>)
    requires
        used@.len() == s@.len(),
        forall|k: int| 0 <= k < s@.len() ==> used@[k] == ghost_used@.contains(k),
    ensures
        r@ == leftovers(s@, ghost_used@, s@.len() as int, want_mapped, *t, tool, other_tool),
{
    let mut out: Vec<Diagnostic> = Vec::new();
    let mut i: usize = 0;
    while i < s.len()
        invariant
            0 <= i <= s@.len(),
            used@.len() == s@.len(),
            forall|k: int| 0 <= k < s@.len() ==> used@[k] == ghost_used@.contains(k),
            out@ == leftovers(s@, ghost_used@, i as int, want_mapped, *t, tool, other_tool),
        decreases s.len() - i,
    {
        if !used[i] {
            let mapped = match &s[i].code {
                Some(code) => t.confidence_for_rule(tool, code.as_str(), other_tool).is_some(),
                None => false,
            };
            if mapped == want_mapped {
                out.push(s[i].clone());
            }
        }
        i = i + 1;
    }
    out
}

/// What comparing the two diagnostic lists under `mappings` gives: both lists are sorted,
/// paired greedily in baseline order, and what stays unpaired is split into the
/// mapped-but-missing and the unmapped diagnostics of each side.
pub open spec fn compared(
    baseline: Seq<Diagnostic>,
    candidate: Seq<Diagnostic>,
    mappings: RuleMappingTable,
    baseline_tool: Tool,
    candidate_tool: Tool,
    r: MatchResult,
) -> bool {
    let b = stable_sort(baseline);
    let c = stable_sort(candidate);
    let p = pairing(b, c, mappings, b.len() as int);
    &&& r.matches@ == stable_sort(p.map_values(|q: Pair| match_of(b, c, q)))
    &&& r.baseline_only@ == leftovers(b, baselines_used(p), b.len() as int, true, mappings, baseline_tool, candidate_tool)
    &&& r.unmapped_baseline@ == leftovers(b, baselines_used(p), b.len() as int, false, mappings, baseline_tool, candidate_tool)
    &&& r.candidate_only@ == leftovers(c, candidates_used(p), c.len() as int, true, mappings, candidate_tool, baseline_tool)
    &&& r.unmapped_candidate@ == leftovers(c, candidates_used(p), c.len() as int, false, mappings, candidate_tool, baseline_tool)
}


/// Pairs baseline and candidate diagnostics and sorts out the rest.
///
/// Both lists are sorted into report order; each baseline diagnostic in turn
/// takes the unpaired candidate on the same path whose rule corresponds
/// (explicit mapping or equal canonical name) and that starts nearest to it,
/// preferring exact mappings and then the earlier candidate. Unpaired
/// diagnostics are split by whether their rule has any known mapping.
pub fn compare_with_mappings(
    baseline: Vec<Diagnostic>,
    candidate: Vec<Diagnostic>,
    mappings: &RuleMappingTable,
    baseline_tool: Tool,
    candidate_tool: Tool,
) -> (r: MatchResult)
    ensures
        compared(baseline@, candidate@, *mappings, baseline_tool, candidate_tool, r),
        forall|i: int| 0 <= i < r.matches@.len() ==> well_classified(#[trigger] r.matches@[i]),
        forall|i: int| 0 <= i < r.matches@.len() ==> (#[trigger] r.matches@[i]).mapping_confidence == pair_confidence(
            *mappings,
            r.matches@[i].baseline,
            r.matches@[i].candidate,
        ),
        match_baselines(r.matches@).to_multiset().add(r.baseline_only@.to_multiset()).add(
            r.unmapped_baseline@.to_multiset(),
        ) == baseline@.to_multiset(),
        match_candidates(r.matches@).to_multiset().add(r.candidate_only@.to_multiset()).add(
            r.unmapped_candidate@.to_multiset(),
        ) == candidate@.to_multiset(),
        sorted_by_key(r.matches@),
        sorted_by_key(r.baseline_only@),
        sorted_by_key(r.candidate_only@),
        sorted_by_key(r.unmapped_baseline@),
        sorted_by_key(r.unmapped_candidate@),
        sorted_by_key(stable_sort(baseline@)),
        sorted_by_key(stable_sort(candidate@)),
{
    let b = crate::order::sort_by_key(baseline);
    let c = crate::order::sort_by_key(candidate);
    let mut baseline_used: Vec<bool> = Vec::new();
    let mut k: usize = 0;
    while k < b.len()
        invariant
            0 <= k <= b@.len(),
            baseline_used@.len() == k,
            forall|m: int| 0 <= m < k ==> !baseline_used@[m],
        decreases b.len() - k,
    {
        baseline_used.push(false);
        k = k + 1;
    }
    let mut candidate_used: Vec<bool> = Vec::new();
    let mut k: usize = 0;
    while k < c.len()
        invariant
            0 <= k <= c@.len(),
            candidate_used@.len() == k,
            forall|m: int| 0 <= m < k ==> !candidate_used@[m],
        decreases c.len() - k,
    {
        candidate_used.push(false);
        k = k + 1;
    }
    let mut matches: Vec<DiagnosticMatch> = Vec::new();
    let ghost mut pairs: Seq<Pair> = Seq::empty();
    let mut i: usize = 0;
    while i < b.len()
        invariant
            0 <= i <= b@.len(),
            baseline_used@.len() == b@.len(),
            candidate_used@.len() == c@.len(),
            pairs == pairing(b@, c@, *mappings, i as int),
            forall|m: int| 0 <= m < c@.len() ==> candidate_used@[m] == candidates_used(pairs).contains(m),
            forall|m: int| 0 <= m < b@.len() ==> baseline_used@[m] == baselines_used(pairs).contains(m),
            forall|q: int| 0 <= q < pairs.len() ==> 0 <= #[trigger] pairs[q].baseline < i && 0 <= pairs[q].candidate < c@.len(),
            matches@ == pairs.map_values(|q: Pair| match_of(b@, c@, q)),
        decreases b.len() - i,
    {
        let choice = best_candidate(&b, &c, mappings, i, &candidate_used, Ghost(candidates_used(pairs)));
        match choice {
            Some((j, conf)) => {
                let ghost q = Pair { baseline: i as int, candidate: j as int, confidence: conf };
                proof {
                    assert(exists|k: int| #[trigger] is_best(b@, c@, *mappings, i as int, candidates_used(pairs), k));
                    let chosen = choose|k: int| #[trigger] is_best(b@, c@, *mappings, i as int, candidates_used(pairs), k);
                    lemma_best_unique(b@, c@, *mappings, i as int, candidates_used(pairs), chosen, j as int);
                    assert(pairing(b@, c@, *mappings, i + 1) == pairs.push(q));
                }
                baseline_used.set(i, true);
                candidate_used.set(j, true);
                let kind = if conf == MappingConfidence::Approximate {
                    MatchKind::ApproximateRuleMatch
                } else {
                    classify_correlated(&b[i], &c[j])
                };
                let ghost old_matches = matches@;
                matches.push(DiagnosticMatch {
                    kind,
                    mapping_confidence: Some(conf),
                    baseline: b[i].clone(),
                    candidate: c[j].clone(),
                });
                proof {
                    let old_pairs = pairs;
                    pairs = pairs.push(q);
                    assert(matches@ =~= pairs.map_values(|q: Pair| match_of(b@, c@, q)));
                    assert forall|m: int| 0 <= m < c@.len() implies candidate_used@[m] == candidates_used(pairs).contains(m) by {
                        if m == j {
                            assert(pairs[old_pairs.len() as int].candidate == m);
                        } else if candidates_used(pairs).contains(m) {
                            let w = choose|w: int| 0 <= w < pairs.len() && pairs[w].candidate == m;
                            assert(w < old_pairs.len());
                            assert(old_pairs[w].candidate == m);
                        } else {
                            if candidates_used(old_pairs).contains(m) {
                                let w = choose|w: int| 0 <= w < old_pairs.len() && old_pairs[w].candidate == m;
                                assert(pairs[w].candidate == m);
                            }
                        }
                    }
                    assert forall|m: int| 0 <= m < b@.len() implies baseline_used@[m] == baselines_used(pairs).contains(m) by {
                        if m == i {
                            assert(pairs[old_pairs.len() as int].baseline == m);
                        } else if baselines_used(pairs).contains(m) {
                            let w = choose|w: int| 0 <= w < pairs.len() && pairs[w].baseline == m;
                            assert(w < old_pairs.len());
                            assert(old_pairs[w].baseline == m);
                        } else {
                            if baselines_used(old_pairs).contains(m) {
                                let w = choose|w: int| 0 <= w < old_pairs.len() && old_pairs[w].baseline == m;
                                assert(pairs[w].baseline == m);
                            }
                        }
                    }
                }
            },
            None => {
                proof {
                    assert(!exists|k: int| #[trigger] is_best(b@, c@, *mappings, i as int, candidates_used(pairs), k));
                    assert(pairing(b@, c@, *mappings, i + 1) == pairs);
                }
            },
        }
        i = i + 1;
    }
    let baseline_only = collect_leftovers(&b, &baseline_used, Ghost(baselines_used(pairs)), true, mappings, baseline_tool, candidate_tool);
    let unmapped_baseline = collect_leftovers(&b, &baseline_used, Ghost(baselines_used(pairs)), false, mappings, baseline_tool, candidate_tool);
    let candidate_only = collect_leftovers(&c, &candidate_used, Ghost(candidates_used(pairs)), true, mappings, candidate_tool, baseline_tool);
    let unmapped_candidate = collect_leftovers(&c, &candidate_used, Ghost(candidates_used(pairs)), false, mappings, candidate_tool, baseline_tool);
    let ghost unsorted = matches@;
    let matches = crate::order::sort_by_key(matches);
    proof {
        lemma_pairing_pairs(b@, c@, *mappings, b@.len() as int);
        assert forall|i: int| 0 <= i < matches@.len() implies well_classified(#[trigger] matches@[i])
            && matches@[i].mapping_confidence == pair_confidence(*mappings, matches@[i].baseline, matches@[i].candidate) by {
            crate::order::lemma_stable_sort_contains(unsorted, i);
            let q = choose|q: int| 0 <= q < unsorted.len() && unsorted[q] == matches@[i];
            assert(unsorted[q] == match_of(b@, c@, pairs[q]));
            lemma_match_of_classified(b@, c@, *mappings, pairs[q]);
        }
        lemma_baseline_partition_prefix(b@, c@, *mappings, baseline_tool, candidate_tool, b@.len() as int);
        assert(b@.take(b@.len() as int) =~= b@);
        crate::order::lemma_map_multiset(matches@, unsorted, |m: DiagnosticMatch| m.baseline);
        assert(unsorted.map_values(|m: DiagnosticMatch| m.baseline) =~= pairs.map_values(|q: Pair| match_of(b@, c@, q).baseline));
        lemma_pairing_distinct(b@, c@, *mappings, b@.len() as int);
        lemma_pairs_selected(c@, pairs);
        lemma_selected_leftovers(c@, candidates_used(pairs), c@.len() as int, *mappings, candidate_tool, baseline_tool);
        assert(c@.take(c@.len() as int) =~= c@);
        crate::order::lemma_map_multiset(matches@, unsorted, |m: DiagnosticMatch| m.candidate);
        assert(unsorted.map_values(|m: DiagnosticMatch| m.candidate) =~= pairs.map_values(|q: Pair| c@[q.candidate]));
        crate::order::lemma_stable_sort_sorted(baseline@);
        crate::order::lemma_stable_sort_sorted(candidate@);
        lemma_leftovers_sorted(b@, baselines_used(pairs), b@.len() as int, true, *mappings, baseline_tool, candidate_tool);
        lemma_leftovers_sorted(b@, baselines_used(pairs), b@.len() as int, false, *mappings, baseline_tool, candidate_tool);
        lemma_leftovers_sorted(c@, candidates_used(pairs), c@.len() as int, true, *mappings, candidate_tool, baseline_tool);
        lemma_leftovers_sorted(c@, candidates_used(pairs), c@.len() as int, false, *mappings, candidate_tool, baseline_tool);
    }
    MatchResult { matches, baseline_only, candidate_only, unmapped_baseline, unmapped_candidate }
}

/// Sorting gives one sequence for any arrangement of the same elements, when
/// elements with equal keys are equal.
pub proof fn lemma_sorted_unique_when_keys_identify<T: Keyed>(a: Seq<T>, b: Seq<T>)
    requires
        a.to_multiset() == b.to_multiset(),
        forall|i: int, j: int| 0 <= i < a.len() && 0 <= j < a.len() && (#[trigger] a[i]).key() == (#[trigger] a[j]).key() ==> a[i] == a[j],
    ensures
        stable_sort(a) == stable_sort(b),
{
    broadcast use vstd::seq_lib::group_to_multiset_ensures;
    crate::order::lemma_stable_sort_order_independent(a, b);
    crate::order::lemma_stable_sort_multiset(a);
    crate::order::lemma_stable_sort_multiset(b);
    let sa = stable_sort(a);
    let sb = stable_sort(b);
    assert(a.len() == a.to_multiset().len());
    assert(b.len() == b.to_multiset().len());
    let ka = sa.map_values(|x: T| x.key());
    let kb = sb.map_values(|x: T| x.key());
    assert(ka == kb);
    assert forall|i: int| 0 <= i < sa.len() implies sa[i] == sb[i] by {
        crate::order::lemma_stable_sort_contains(a, i);
        crate::order::lemma_stable_sort_contains(b, i);
        assert(ka[i] == sa[i].key());
        assert(kb[i] == sb[i].key());
        let p = choose|p: int| 0 <= p < a.len() && a[p] == sa[i];
        let x = sb[i];
        assert(b.to_multiset().count(x) > 0);
        assert(a.contains(x));
        let q = choose|q: int| 0 <= q < a.len() && a[q] == x;
        assert(a[p].key() == a[q].key());
    }
    assert(sa =~= sb);
}

/// The comparison does not depend on the order in which the tools reported their
/// diagnostics: rearranging either list, where diagnostics that agree on path,
/// position, rule, message and fingerprint are the same, gives the same pairs and
/// the same leftover lists.
pub proof fn lemma_compare_order_independent(
    baseline: Seq<Diagnostic>,
    baseline2: Seq<Diagnostic>,
    candidate: Seq<Diagnostic>,
    candidate2: Seq<Diagnostic>,
    mappings: RuleMappingTable,
    baseline_tool: Tool,
    candidate_tool: Tool,
    r: MatchResult,
    r2: MatchResult,
)
    requires
        baseline.to_multiset() == baseline2.to_multiset(),
        candidate.to_multiset() == candidate2.to_multiset(),
        forall|i: int, j: int|
            0 <= i < baseline.len() && 0 <= j < baseline.len() && (#[trigger] baseline[i]).key() == (#[trigger] baseline[j]).key()
                ==> baseline[i] == baseline[j],
        forall|i: int, j: int|
            0 <= i < candidate.len() && 0 <= j < candidate.len() && (#[trigger] candidate[i]).key() == (#[trigger] candidate[j]).key()
                ==> candidate[i] == candidate[j],
        compared(baseline, candidate, mappings, baseline_tool, candidate_tool, r),
        compared(baseline2, candidate2, mappings, baseline_tool, candidate_tool, r2),
    ensures
        r.matches@ == r2.matches@,
        r.baseline_only@ == r2.baseline_only@,
        r.candidate_only@ == r2.candidate_only@,
        r.unmapped_baseline@ == r2.unmapped_baseline@,
        r.unmapped_candidate@ == r2.unmapped_candidate@,
{
    lemma_sorted_unique_when_keys_identify(baseline, baseline2);
    lemma_sorted_unique_when_keys_identify(candidate, candidate2);
}

} // verus!

verus! {

/// What every reported match satisfies: the diagnostics share a path, the
/// mapping confidence is recorded, an approximate mapping is reported as an
/// approximate rule match and as nothing else, and an exact match has equal
/// span, severity and message.
pub open spec fn well_classified(m: DiagnosticMatch) -> bool {
    &&& m.mapping_confidence is Some
    &&& m.baseline.path@ == m.candidate.path@
    &&& (m.mapping_confidence == Some(MappingConfidence::Approximate)) == (m.kind
        == MatchKind::ApproximateRuleMatch)
    &&& m.kind != MatchKind::ProbableMatch
    &&& m.kind == MatchKind::ExactMatch ==> {
        &&& m.mapping_confidence == Some(MappingConfidence::Exact)
        &&& m.baseline.span == m.candidate.span
        &&& m.baseline.severity == m.candidate.severity
        &&& m.baseline.message@ == m.candidate.message@
    }
}

/// The pairs chosen for the first `n` baseline diagnostics are in range,
/// join diagnostics on the same path, and record the confidence of their
/// rules' correspondence.
pub proof fn lemma_pairing_pairs(b: Seq<Diagnostic>, c: Seq<Diagnostic>, t: RuleMappingTable, n: int)
    requires
        0 <= n <= b.len(),
    ensures
        forall|q: int|
            0 <= q < pairing(b, c, t, n).len() ==> {
                let p = #[trigger] pairing(b, c, t, n)[q];
                &&& 0 <= p.baseline < n
                &&& 0 <= p.candidate < c.len()
                &&& c[p.candidate].path@ == b[p.baseline].path@
                &&& pair_confidence(t, b[p.baseline], c[p.candidate]) == Some(p.confidence)
            },
    decreases n,
{
    if n > 0 {
        lemma_pairing_pairs(b, c, t, n - 1);
    }
}

proof fn lemma_match_of_classified(b: Seq<Diagnostic>, c: Seq<Diagnostic>, t: RuleMappingTable, p: Pair)
    requires
        0 <= p.baseline < b.len(),
        0 <= p.candidate < c.len(),
        c[p.candidate].path@ == b[p.baseline].path@,
    ensures
        well_classified(match_of(b, c, p)),
{
}

} // verus!

verus! {

/// The baseline diagnostics of a list of matches.
pub open spec fn match_baselines(ms: Seq<DiagnosticMatch>) -> Seq<Diagnostic> {
    ms.map_values(|m: DiagnosticMatch| m.baseline)
}

/// The candidate diagnostics of a list of matches.
pub open spec fn match_candidates(ms: Seq<DiagnosticMatch>) -> Seq<Diagnostic> {
    ms.map_values(|m: DiagnosticMatch| m.candidate)
}

proof fn lemma_leftovers_congruent(s: Seq<Diagnostic>, u1: Set<int>, u2: Set<int>, n: int, mapped: bool, t: RuleMappingTable, tool: Tool, other_tool: Tool)
    requires
        forall|i: int| 0 <= i < n ==> u1.contains(i) == u2.contains(i),
    ensures
        leftovers(s, u1, n, mapped, t, tool, other_tool) == leftovers(s, u2, n, mapped, t, tool, other_tool),
    decreases n,
{
    if n > 0 && n <= s.len() {
        lemma_leftovers_congruent(s, u1, u2, n - 1, mapped, t, tool, other_tool);
    }
}

proof fn lemma_baseline_partition_prefix(b: Seq<Diagnostic>, c: Seq<Diagnostic>, t: RuleMappingTable, bt: Tool, ct: Tool, n: int)
    requires
        0 <= n <= b.len(),
    ensures
        ({
            let p = pairing(b, c, t, n);
            let u = baselines_used(p);
            p.map_values(|q: Pair| match_of(b, c, q).baseline).to_multiset().add(
                leftovers(b, u, n, true, t, bt, ct).to_multiset(),
            ).add(leftovers(b, u, n, false, t, bt, ct).to_multiset()) == b.take(n).to_multiset()
        }),
    decreases n,
{
    broadcast use vstd::seq_lib::group_to_multiset_ensures;
    broadcast use vstd::multiset::group_multiset_axioms;
    if n == 0 {
        assert(b.take(0) =~= Seq::<Diagnostic>::empty());
        assert(pairing(b, c, t, 0).map_values(|q: Pair| match_of(b, c, q).baseline) =~= Seq::<Diagnostic>::empty());
    } else {
        lemma_baseline_partition_prefix(b, c, t, bt, ct, n - 1);
        lemma_pairing_pairs(b, c, t, n - 1);
        lemma_pairing_pairs(b, c, t, n);
        let p0 = pairing(b, c, t, n - 1);
        let p1 = pairing(b, c, t, n);
        let u0 = baselines_used(p0);
        let u1 = baselines_used(p1);
        assert(b.take(n) =~= b.take(n - 1).push(b[n - 1]));
        vstd::seq_lib::to_multiset_build(b.take(n - 1), b[n - 1]);
        assert forall|i: int| 0 <= i < n - 1 implies u1.contains(i) == u0.contains(i) by {
            if u1.contains(i) {
                let w = choose|w: int| 0 <= w < p1.len() && p1[w].baseline == i;
                if w < p0.len() {
                    assert(p0[w] == p1[w]);
                }
            }
            if u0.contains(i) {
                let w = choose|w: int| 0 <= w < p0.len() && p0[w].baseline == i;
                assert(p1[w] == p0[w]);
            }
        }
        lemma_leftovers_congruent(b, u1, u0, n - 1, true, t, bt, ct);
        lemma_leftovers_congruent(b, u1, u0, n - 1, false, t, bt, ct);
        let m0 = p0.map_values(|q: Pair| match_of(b, c, q).baseline);
        let m1 = p1.map_values(|q: Pair| match_of(b, c, q).baseline);
        if p1.len() == p0.len() + 1 {
            assert(p1 == p0.push(p1.last()));
            assert(p1.last().baseline == n - 1);
            assert(u1.contains(n - 1));
            assert(m1 =~= m0.push(b[n - 1]));
            vstd::seq_lib::to_multiset_build(m0, b[n - 1]);
        } else {
            assert(p1 == p0);
            assert(!u1.contains(n - 1)) by {
                if u1.contains(n - 1) {
                    let w = choose|w: int| 0 <= w < p1.len() && p1[w].baseline == n - 1;
                    assert(p0[w].baseline < n - 1);
                }
            }
            assert(m1 == m0);
            let lt = leftovers(b, u1, n - 1, true, t, bt, ct);
            let lf = leftovers(b, u1, n - 1, false, t, bt, ct);
            if is_mapped(t, b[n - 1], bt, ct) {
                vstd::seq_lib::to_multiset_build(lt, b[n - 1]);
            } else {
                vstd::seq_lib::to_multiset_build(lf, b[n - 1]);
            }
        }
    }
}

} // verus!

verus! {

/// The diagnostics among the first `n` whose indices are in `u`, in order.
pub open spec fn selected(s: Seq<Diagnostic>, u: Set<int>, n: int) -> Seq<Diagnostic>
    decreases n,
{
    if n <= 0 || n > s.len() {
        Seq::empty()
    } else {
        let r = selected(s, u, n - 1);
        if u.contains(n - 1) {
            r.push(s[n - 1])
        } else {
            r
        }
    }
}

proof fn lemma_selected_leftovers(s: Seq<Diagnostic>, u: Set<int>, n: int, t: RuleMappingTable, tool: Tool, other_tool: Tool)
    requires
        0 <= n <= s.len(),
    ensures
        selected(s, u, n).to_multiset().add(leftovers(s, u, n, true, t, tool, other_tool).to_multiset()).add(
            leftovers(s, u, n, false, t, tool, other_tool).to_multiset(),
        ) == s.take(n).to_multiset(),
    decreases n,
{
    broadcast use vstd::seq_lib::group_to_multiset_ensures;
    broadcast use vstd::multiset::group_multiset_axioms;
    if n == 0 {
        assert(s.take(0) =~= Seq::<Diagnostic>::empty());
    } else {
        lemma_selected_leftovers(s, u, n - 1, t, tool, other_tool);
        assert(s.take(n) =~= s.take(n - 1).push(s[n - 1]));
        vstd::seq_lib::to_multiset_build(s.take(n - 1), s[n - 1]);
        if u.contains(n - 1) {
            vstd::seq_lib::to_multiset_build(selected(s, u, n - 1), s[n - 1]);
        } else if is_mapped(t, s[n - 1], tool, other_tool) {
            vstd::seq_lib::to_multiset_build(leftovers(s, u, n - 1, true, t, tool, other_tool), s[n - 1]);
        } else {
            vstd::seq_lib::to_multiset_build(leftovers(s, u, n - 1, false, t, tool, other_tool), s[n - 1]);
        }
    }
}

proof fn lemma_selected_insert(s: Seq<Diagnostic>, u: Set<int>, k: int, n: int)
    requires
        0 <= k < s.len(),
        !u.contains(k),
        0 <= n <= s.len(),
    ensures
        selected(s, u.insert(k), n).to_multiset() == if k < n {
            selected(s, u, n).to_multiset().insert(s[k])
        } else {
            selected(s, u, n).to_multiset()
        },
    decreases n,
{
    broadcast use vstd::seq_lib::group_to_multiset_ensures;
    broadcast use vstd::multiset::group_multiset_axioms;
    if n > 0 {
        lemma_selected_insert(s, u, k, n - 1);
        let a = selected(s, u.insert(k), n - 1);
        let b = selected(s, u, n - 1);
        if u.insert(k).contains(n - 1) {
            vstd::seq_lib::to_multiset_build(a, s[n - 1]);
        }
        if u.contains(n - 1) {
            vstd::seq_lib::to_multiset_build(b, s[n - 1]);
        }
        if k == n - 1 {
            assert(selected(s, u.insert(k), n) == a.push(s[k]));
            assert(selected(s, u, n) == b);
        }
    }
}

/// The candidate indices of the pairs are distinct.
pub open spec fn distinct_candidates(p: Seq<Pair>) -> bool {
    forall|x: int, y: int| 0 <= x < y < p.len() ==> #[trigger] p[x].candidate != #[trigger] p[y].candidate
}

proof fn lemma_pairing_distinct(b: Seq<Diagnostic>, c: Seq<Diagnostic>, t: RuleMappingTable, n: int)
    requires
        0 <= n <= b.len(),
    ensures
        distinct_candidates(pairing(b, c, t, n)),
    decreases n,
{
    if n > 0 {
        lemma_pairing_distinct(b, c, t, n - 1);
        let p0 = pairing(b, c, t, n - 1);
        let p1 = pairing(b, c, t, n);
        if p1.len() == p0.len() + 1 {
            assert forall|x: int, y: int| 0 <= x < y < p1.len() implies #[trigger] p1[x].candidate != #[trigger] p1[y].candidate by {
                if y == p0.len() {
                    assert(p1[x] == p0[x]);
                    assert(candidates_used(p0).contains(p0[x].candidate));
                } else {
                    assert(p1[x] == p0[x]);
                    assert(p1[y] == p0[y]);
                }
            }
        }
    }
}

proof fn lemma_pairs_selected(c: Seq<Diagnostic>, p: Seq<Pair>)
    requires
        distinct_candidates(p),
        forall|q: int| 0 <= q < p.len() ==> 0 <= #[trigger] p[q].candidate < c.len(),
    ensures
        p.map_values(|q: Pair| c[q.candidate]).to_multiset() == selected(c, candidates_used(p), c.len() as int).to_multiset(),
    decreases p.len(),
{
    broadcast use vstd::seq_lib::group_to_multiset_ensures;
    broadcast use vstd::multiset::group_multiset_axioms;
    if p.len() == 0 {
        assert(candidates_used(p) =~= Set::<int>::empty());
        assert forall|n: int| 0 <= n <= c.len() implies selected(c, Set::<int>::empty(), n) =~= Seq::<Diagnostic>::empty() by {
            lemma_selected_empty(c, n);
        }
        assert(p.map_values(|q: Pair| c[q.candidate]) =~= Seq::<Diagnostic>::empty());
    } else {
        let p0 = p.drop_last();
        let k = p.last().candidate;
        lemma_pairs_selected(c, p0);
        assert(candidates_used(p) =~= candidates_used(p0).insert(k)) by {
            assert forall|m: int| candidates_used(p).contains(m) implies candidates_used(p0).insert(k).contains(m) by {
                let w = choose|w: int| 0 <= w < p.len() && p[w].candidate == m;
                if w < p0.len() {
                    assert(p0[w] == p[w]);
                }
            }
            assert forall|m: int| candidates_used(p0).insert(k).contains(m) implies candidates_used(p).contains(m) by {
                if m != k {
                    let w = choose|w: int| 0 <= w < p0.len() && p0[w].candidate == m;
                    assert(p[w] == p0[w]);
                } else {
                    assert(p[p.len() - 1].candidate == m);
                }
            }
        }
        assert(!candidates_used(p0).contains(k)) by {
            if candidates_used(p0).contains(k) {
                let w = choose|w: int| 0 <= w < p0.len() && p0[w].candidate == k;
                assert(p[w].candidate == p[p.len() - 1].candidate);
            }
        }
        lemma_selected_insert(c, candidates_used(p0), k, c.len() as int);
        assert(p.map_values(|q: Pair| c[q.candidate]) =~= p0.map_values(|q: Pair| c[q.candidate]).push(c[k]));
        vstd::seq_lib::to_multiset_build(p0.map_values(|q: Pair| c[q.candidate]), c[k]);
    }
}

proof fn lemma_selected_empty(c: Seq<Diagnostic>, n: int)
    ensures
        selected(c, Set::<int>::empty(), n) =~= Seq::<Diagnostic>::empty(),
    decreases n,
{
    if n > 0 && n <= c.len() {
        lemma_selected_empty(c, n - 1);
    }
}

} // verus!

verus! {

/// A mapping table with no configured mappings and the built-in aliases.
pub open spec fn is_default_table(t: RuleMappingTable) -> bool {
    t.listed().len() == 0 && t.alias_view() == pairs_map(builtin_alias_pairs())
}

/// Compares ESLint diagnostics (baseline) with Biome diagnostics (candidate) under the
/// built-in aliases only.
pub fn compare(baseline: Vec<Diagnostic>, candidate: Vec<Diagnostic>) -> (r: MatchResult)
    ensures
        exists|t: RuleMappingTable| #[trigger] is_default_table(t)
            && compared(baseline@, candidate@, t, Tool::Eslint, Tool::Biome, r),
        forall|i: int| 0 <= i < r.matches@.len() ==> well_classified(#[trigger] r.matches@[i]),
        match_baselines(r.matches@).to_multiset().add(r.baseline_only@.to_multiset()).add(
            r.unmapped_baseline@.to_multiset(),
        ) == baseline@.to_multiset(),
        match_candidates(r.matches@).to_multiset().add(r.candidate_only@.to_multiset()).add(
            r.unmapped_candidate@.to_multiset(),
        ) == candidate@.to_multiset(),
        sorted_by_key(r.matches@),
{
    let table = RuleMappingTable::default();
    let r = compare_with_mappings(baseline, candidate, &table, Tool::Eslint, Tool::Biome);
    assert(is_default_table(table));
    r
}

/// Whether one of the first `n` diagnostics carries the rule ID `x`.
pub open spec fn has_code(ds: Seq<Diagnostic>, n: int, x: Seq<char>) -> bool {
    exists|k: int| 0 <= k < n && #[trigger] opt_view(ds[k].code) == Some(x)
}

/// The distinct rule IDs that the diagnostics carry, in ascending order.
pub fn observed_rule_ids(diagnostics: &Vec<Diagnostic>) -> (r: Vec<String>)
    ensures
        crate::order::strictly_ascending(crate::paths::views(r@)),
        forall|x: Seq<char>| #[trigger] crate::paths::views(r@).contains(x) <==> has_code(diagnostics@, diagnostics@.len() as int, x),
{
    let mut codes: Vec<String> = Vec::new();
    let mut i: usize = 0;
    while i < diagnostics.len()
        invariant
            0 <= i <= diagnostics@.len(),
            forall|x: Seq<char>| #[trigger] crate::paths::views(codes@).contains(x) <==> has_code(diagnostics@, i as int, x),
        decreases diagnostics.len() - i,
    {
        let ghost before = crate::paths::views(codes@);
        let ghost ds = diagnostics@;
        if let Some(code) = &diagnostics[i].code {
            codes.push(code.clone());
            proof {
                let now = crate::paths::views(codes@);
                assert(now =~= before.push(code@));
                assert forall|x: Seq<char>| #[trigger] now.contains(x) <==> has_code(ds, i + 1, x) by {
                    if now.contains(x) {
                        let j = choose|j: int| 0 <= j < now.len() && now[j] == x;
                        if j == before.len() {
                            assert(opt_view(ds[i as int].code) == Some(x));
                        } else {
                            assert(before[j] == x);
                            assert(before.contains(x));
                            let k = choose|k: int| 0 <= k < i && #[trigger] opt_view(ds[k].code) == Some(x);
                            assert(0 <= k < i + 1);
                        }
                    }
                    if has_code(ds, i + 1, x) {
                        let k = choose|k: int| 0 <= k < i + 1 && #[trigger] opt_view(ds[k].code) == Some(x);
                        if k == i {
                            assert(now[before.len() as int] == x);
                        } else {
                            assert(has_code(ds, i as int, x));
                            assert(before.contains(x));
                            let j = choose|j: int| 0 <= j < before.len() && before[j] == x;
                            assert(now[j] == x);
                        }
                    }
                }
            }
        } else {
            proof {
                assert forall|x: Seq<char>| #[trigger] before.contains(x) <==> has_code(ds, i + 1, x) by {
                    if has_code(ds, i + 1, x) {
                        let k = choose|k: int| 0 <= k < i + 1 && #[trigger] opt_view(ds[k].code) == Some(x);
                        assert(k != i);
                        assert(has_code(ds, i as int, x));
                    }
                    if before.contains(x) {
                        assert(has_code(ds, i as int, x));
                        let k = choose|k: int| 0 <= k < i && #[trigger] opt_view(ds[k].code) == Some(x);
                        assert(0 <= k < i + 1);
                    }
                }
            }
        }
        i = i + 1;
    }
    let ghost cv = crate::paths::views(codes@);
    let r = crate::order::sorted_unique_strings(codes);
    proof {
        assert forall|x: Seq<char>| #[trigger] crate::paths::views(r@).contains(x) <==> cv.contains(x) by {
            assert(r@.map_values(|s: String| s@).to_set().contains(x) == r@.map_values(|s: String| s@).contains(x));
            assert(codes@.map_values(|s: String| s@).to_set().contains(x) == cv.contains(x));
        }
    }
    r
}

} // verus!
