//! Character-level text operations with their specifications.
use vstd::prelude::*;

verus! {

/// Appends one character to a string (`String::push`).
#[verifier::external_body]
pub(crate) fn push_char(s: &mut String, c: char)
    ensures
        final(s)@ == old(s)@.push(c),
{
    s.push(c);
}

/// The characters of a string slice, in order.
pub fn chars_of(s: &str) -> (v: Vec<char>)
    ensures
        v@ == s@,
{
    let mut v: Vec<char> = Vec::new();
    for c in it: s.chars()
        invariant
            v@ == it.seq().take(it.index() as int),
            it.seq() == s@,
    {
        v.push(c);
    }
    v
}

/// Builds a string from the characters `v[from..to]`.
pub fn string_from_range(v: &Vec<char>, from: usize, to: usize) -> (s: String)
    requires
        from <= to <= v@.len(),
    ensures
        s@ == v@.subrange(from as int, to as int),
{
    let mut s = String::new();
    let mut i = from;
    while i < to
        invariant
            from <= i <= to <= v@.len(),
            s@ == v@.subrange(from as int, i as int),
        decreases to - i,
    {
        push_char(&mut s, v[i]);
        i = i + 1;
    }
    s
}

/// Builds a string from all the characters of `v`.
pub fn string_of(v: &Vec<char>) -> (s: String)
    ensures
        s@ == v@,
{
    string_from_range(v, 0, v.len())
}

/// An owned copy of a string slice.
pub fn owned(t: &str) -> (r: String)
    ensures
        r@ == t@,
{
    let mut r = String::new();
    push_str(&mut r, t);
    proof {
        assert(Seq::<char>::empty() + t@ =~= t@);
    }
    r
}

/// Appends a string slice to a string.
pub fn push_str(s: &mut String, t: &str)
    ensures
        final(s)@ == old(s)@ + t@,
{
    let v = chars_of(t);
    let mut i: usize = 0;
    while i < v.len()
        invariant
            0 <= i <= v@.len(),
            v@ == t@,
            s@ == old(s)@ + v@.take(i as int),
        decreases v.len() - i,
    {
        push_char(s, v[i]);
        i = i + 1;
    }
}

/// Unicode `White_Space` (what `char::is_whitespace` tests).
pub open spec fn is_white(c: char) -> bool {
    let n = c as u32;
    ||| 0x09 <= n <= 0x0d
    ||| n == 0x20
    ||| n == 0x85
    ||| n == 0xa0
    ||| n == 0x1680
    ||| 0x2000 <= n <= 0x200a
    ||| n == 0x2028
    ||| n == 0x2029
    ||| n == 0x202f
    ||| n == 0x205f
    ||| n == 0x3000
}

/// Whether `c` is Unicode white space.
pub fn is_whitespace(c: char) -> (r: bool)
    ensures
        r == is_white(c),
{
    let n = c as u32;
    (0x09 <= n && n <= 0x0d) || n == 0x20 || n == 0x85 || n == 0xa0 || n == 0x1680 || (0x2000
        <= n && n <= 0x200a) || n == 0x2028 || n == 0x2029 || n == 0x202f || n == 0x205f || n
        == 0x3000
}

/// Index of the first character that is not white space (or the length).
pub open spec fn trim_start_index(s: Seq<char>) -> int
    decreases s.len(),
{
    if s.len() == 0 {
        0
    } else if is_white(s[0]) {
        1 + trim_start_index(s.drop_first())
    } else {
        0
    }
}

/// Index just past the last character that is not white space (or 0).
pub open spec fn trim_end_index(s: Seq<char>) -> int
    decreases s.len(),
{
    if s.len() == 0 {
        0
    } else if is_white(s.last()) {
        trim_end_index(s.drop_last())
    } else {
        s.len() as int
    }
}

/// `s` without leading and trailing white space (`str::trim`).
pub open spec fn trim_seq(s: Seq<char>) -> Seq<char> {
    if trim_start_index(s) >= s.len() {
        Seq::empty()
    } else {
        s.subrange(trim_start_index(s), trim_end_index(s))
    }
}

proof fn lemma_trim_start_index(s: Seq<char>)
    ensures
        0 <= trim_start_index(s) <= s.len(),
        forall|i: int| 0 <= i < trim_start_index(s) ==> is_white(#[trigger] s[i]),
        trim_start_index(s) < s.len() ==> !is_white(s[trim_start_index(s)]),
    decreases s.len(),
{
    if s.len() > 0 && is_white(s[0]) {
        lemma_trim_start_index(s.drop_first());
        assert forall|i: int| 0 <= i < trim_start_index(s) implies is_white(#[trigger] s[i]) by {
            if i > 0 {
                assert(s[i] == s.drop_first()[i - 1]);
            }
        }
    }
}

proof fn lemma_trim_end_index(s: Seq<char>)
    ensures
        0 <= trim_end_index(s) <= s.len(),
        forall|i: int| trim_end_index(s) <= i < s.len() ==> is_white(#[trigger] s[i]),
        trim_end_index(s) > 0 ==> !is_white(s[trim_end_index(s) - 1]),
    decreases s.len(),
{
    if s.len() > 0 && is_white(s.last()) {
        lemma_trim_end_index(s.drop_last());
        assert forall|i: int| trim_end_index(s) <= i < s.len() implies is_white(#[trigger] s[i]) by {
            if i < s.len() - 1 {
                assert(s[i] == s.drop_last()[i]);
            }
        }
    }
}

/// Trimming keeps a middle part of the text, and changes nothing in a text without
/// white space.
pub proof fn lemma_trim_seq_part(s: Seq<char>)
    ensures
        exists|a: int, b: int| 0 <= a <= b <= s.len() && trim_seq(s) == s.subrange(a, b),
        (forall|i: int| 0 <= i < s.len() ==> !is_white(#[trigger] s[i])) ==> trim_seq(s) == s,
{
    lemma_trim_start_index(s);
    lemma_trim_end_index(s);
    if trim_start_index(s) >= s.len() {
        assert(trim_seq(s) == s.subrange(0, 0));
    } else {
        if trim_end_index(s) < trim_start_index(s) {
            assert(is_white(s[trim_start_index(s)]));
        }
        assert(trim_seq(s) == s.subrange(trim_start_index(s), trim_end_index(s)));
    }
    if forall|i: int| 0 <= i < s.len() ==> !is_white(#[trigger] s[i]) {
        if s.len() > 0 {
            assert(!is_white(s[0]));
            assert(!is_white(s[s.len() - 1]));
            assert(trim_start_index(s) == 0);
            if trim_end_index(s) < s.len() {
                assert(is_white(s[s.len() - 1]));
            }
            assert(s.subrange(0, s.len() as int) =~= s);
        } else {
            assert(s =~= Seq::<char>::empty());
        }
    }
}

/// Finds the first non-white index by scanning.
fn first_non_white(v: &Vec<char>) -> (r: usize)
    ensures
        r == trim_start_index(v@),
{
    proof {
        lemma_trim_start_index(v@);
    }
    let mut i: usize = 0;
    while i < v.len() && is_whitespace(v[i])
        invariant
            0 <= i <= v@.len(),
            i <= trim_start_index(v@),
            forall|k: int| 0 <= k < trim_start_index(v@) ==> is_white(#[trigger] v@[k]),
            trim_start_index(v@) < v@.len() ==> !is_white(v@[trim_start_index(v@)]),
            0 <= trim_start_index(v@) <= v@.len(),
        decreases v.len() - i,
    {
        i = i + 1;
    }
    i
}

/// Finds the index just past the last non-white character by scanning backwards.
fn end_non_white(v: &Vec<char>) -> (r: usize)
    ensures
        r == trim_end_index(v@),
{
    proof {
        lemma_trim_end_index(v@);
    }
    let mut i: usize = v.len();
    while i > 0 && is_whitespace(v[i - 1])
        invariant
            0 <= i <= v@.len(),
            i >= trim_end_index(v@),
            forall|k: int| trim_end_index(v@) <= k < v@.len() ==> is_white(#[trigger] v@[k]),
            trim_end_index(v@) > 0 ==> !is_white(v@[trim_end_index(v@) - 1]),
            0 <= trim_end_index(v@) <= v@.len(),
        decreases i,
    {
        i = i - 1;
    }
    i
}

proof fn lemma_trim_bounds(s: Seq<char>)
    ensures
        trim_start_index(s) < s.len() ==> trim_start_index(s) < trim_end_index(s) <= s.len(),
{
    lemma_trim_start_index(s);
    lemma_trim_end_index(s);
    if trim_start_index(s) < s.len() && trim_end_index(s) <= trim_start_index(s) {
        let k = trim_start_index(s);
        assert(is_white(s[k]));
    }
}

/// `s` without leading and trailing white space.
pub fn trim(s: &str) -> (r: String)
    ensures
        r@ == trim_seq(s@),
{
    let v = chars_of(s);
    let start = first_non_white(&v);
    if start >= v.len() {
        return String::new();
    }
    let end = end_non_white(&v);
    proof {
        lemma_trim_bounds(v@);
    }
    string_from_range(&v, start, end)
}

/// Whether `s` holds nothing but white space.
pub fn is_blank(s: &str) -> (r: bool)
    ensures
        r == (trim_seq(s@).len() == 0),
{
    let v = chars_of(s);
    let start = first_non_white(&v);
    proof {
        lemma_trim_bounds(v@);
    }
    start >= v.len()
}

/// ASCII lower-casing of one character (`char::to_ascii_lowercase`).
pub open spec fn lower(c: char) -> char {
    if 'A' <= c <= 'Z' {
        ((c as u32) + 32) as char
    } else {
        c
    }
}

/// ASCII lower-casing of a sequence.
pub open spec fn lower_seq(s: Seq<char>) -> Seq<char> {
    s.map_values(|c: char| lower(c))
}

/// ASCII lower-casing of one character.
pub(crate) fn to_lower(c: char) -> (r: char)
    ensures
        r == lower(c),
{
    if 'A' <= c && c <= 'Z' {
        ((c as u8) + 32) as char
    } else {
        c
    }
}

/// ASCII lower-casing of a string (`str::to_ascii_lowercase`).
pub fn to_ascii_lowercase(s: &str) -> (r: String)
    ensures
        r@ == lower_seq(s@),
{
    let v = chars_of(s);
    let mut r = String::new();
    let mut i: usize = 0;
    while i < v.len()
        invariant
            0 <= i <= v@.len(),
            v@ == s@,
            r@ == lower_seq(v@.take(i as int)),
        decreases v.len() - i,
    {
        push_char(&mut r, to_lower(v[i]));
        proof {
            assert(lower_seq(v@.take(i + 1)) =~= lower_seq(v@.take(i as int)).push(lower(v@[i as int])));
        }
        i = i + 1;
    }
    proof {
        assert(v@.take(v@.len() as int) =~= v@);
    }
    r
}

/// Character-sequence equality of two string slices.
pub fn str_eq(a: &str, b: &str) -> (r: bool)
    ensures
        r == (a@ == b@),
{
    let x = chars_of(a);
    let y = chars_of(b);
    if x.len() != y.len() {
        return false;
    }
    let mut i: usize = 0;
    while i < x.len()
        invariant
            0 <= i <= x@.len(),
            x@ == a@,
            y@ == b@,
            x@.len() == y@.len(),
            forall|k: int| 0 <= k < i ==> x@[k] == y@[k],
        decreases x.len() - i,
    {
        if x[i] != y[i] {
            proof {
                assert(a@[i as int] != b@[i as int]);
            }
            return false;
        }
        i = i + 1;
    }
    proof {
        assert(x@ =~= y@);
    }
    true
}

/// Whether two sequences are equal up to ASCII case.
pub open spec fn eq_ignore_case(a: Seq<char>, b: Seq<char>) -> bool {
    lower_seq(a) == lower_seq(b)
}

/// Equality up to ASCII case (`str::eq_ignore_ascii_case`).
pub fn eq_ignore_ascii_case(a: &str, b: &str) -> (r: bool)
    ensures
        r == eq_ignore_case(a@, b@),
{
    let x = to_ascii_lowercase(a);
    let y = to_ascii_lowercase(b);
    str_eq(x.as_str(), y.as_str())
}

} // verus!

verus! {

/// The outcome of comparing two values.
#[derive(Debug, Clone, Copy, PartialEq, Eq, Structural)]
pub enum Order {
    Less,
    Equal,
    Greater,
}

/// The reverse of an order.
pub open spec fn flip(o: Order) -> Order {
    match o {
        Order::Less => Order::Greater,
        Order::Equal => Order::Equal,
        Order::Greater => Order::Less,
    }
}

/// Lexicographic order of character sequences by code point (the order of
/// `str` and `String`, whose UTF-8 byte order agrees with code point order).
pub open spec fn text_order(a: Seq<char>, b: Seq<char>) -> Order
    decreases a.len(),
{
    if a.len() == 0 {
        if b.len() == 0 {
            Order::Equal
        } else {
            Order::Less
        }
    } else if b.len() == 0 {
        Order::Greater
    } else if (a[0] as int) < (b[0] as int) {
        Order::Less
    } else if (a[0] as int) > (b[0] as int) {
        Order::Greater
    } else {
        text_order(a.drop_first(), b.drop_first())
    }
}

/// Order of two integers.
pub open spec fn int_order(a: int, b: int) -> Order {
    if a < b {
        Order::Less
    } else if a > b {
        Order::Greater
    } else {
        Order::Equal
    }
}

/// Lexicographic combination: the first order unless it is `Equal`.
pub open spec fn then(first: Order, second: Order) -> Order {
    if first == Order::Equal {
        second
    } else {
        first
    }
}

/// `text_order` is an order: equal exactly on equal sequences, antisymmetric
/// and transitive.
pub proof fn lemma_text_order(a: Seq<char>, b: Seq<char>)
    ensures
        (text_order(a, b) == Order::Equal) == (a == b),
        text_order(b, a) == flip(text_order(a, b)),
    decreases a.len(),
{
    if a.len() > 0 && b.len() > 0 && a[0] == b[0] {
        lemma_text_order(a.drop_first(), b.drop_first());
        if a.drop_first() == b.drop_first() {
            assert(a =~= seq![a[0]] + a.drop_first());
            assert(b =~= seq![b[0]] + b.drop_first());
        }
    }
    if a.len() == 0 && b.len() == 0 {
        assert(a =~= b);
    }
}

/// Transitivity of `text_order` for `Less`.
pub proof fn lemma_text_order_transitive(a: Seq<char>, b: Seq<char>, c: Seq<char>)
    requires
        text_order(a, b) == Order::Less,
        text_order(b, c) == Order::Less,
    ensures
        text_order(a, c) == Order::Less,
    decreases a.len(),
{
    if a.len() > 0 && b.len() > 0 && c.len() > 0 && a[0] == b[0] && b[0] == c[0] {
        lemma_text_order_transitive(a.drop_first(), b.drop_first(), c.drop_first());
    }
}

/// Compares two character vectors from position `i` on.
fn compare_from(x: &Vec<char>, y: &Vec<char>, i: usize) -> (r: Order)
    requires
        i <= x@.len(),
        i <= y@.len(),
    ensures
        r == text_order(x@.skip(i as int), y@.skip(i as int)),
    decreases x@.len() - i,
{
    if i == x.len() {
        if i == y.len() {
            Order::Equal
        } else {
            Order::Less
        }
    } else if i == y.len() {
        Order::Greater
    } else if x[i] < y[i] {
        Order::Less
    } else if x[i] > y[i] {
        Order::Greater
    } else {
        let r = compare_from(x, y, i + 1);
        proof {
            assert(x@.skip(i as int).drop_first() =~= x@.skip(i + 1));
            assert(y@.skip(i as int).drop_first() =~= y@.skip(i + 1));
        }
        r
    }
}

/// Lexicographic comparison of two string slices.
pub fn compare_text(a: &str, b: &str) -> (r: Order)
    ensures
        r == text_order(a@, b@),
{
    let x = chars_of(a);
    let y = chars_of(b);
    let r = compare_from(&x, &y, 0);
    proof {
        assert(x@.skip(0) =~= x@);
        assert(y@.skip(0) =~= y@);
    }
    r
}

/// Comparison of two integers.
pub fn compare_u64(a: u64, b: u64) -> (r: Order)
    ensures
        r == int_order(a as int, b as int),
{
    if a < b {
        Order::Less
    } else if a > b {
        Order::Greater
    } else {
        Order::Equal
    }
}

/// The ASCII digit of a value below ten.
pub open spec fn digit(d: nat) -> char {
    if d == 0 { '0' }
    else if d == 1 { '1' }
    else if d == 2 { '2' }
    else if d == 3 { '3' }
    else if d == 4 { '4' }
    else if d == 5 { '5' }
    else if d == 6 { '6' }
    else if d == 7 { '7' }
    else if d == 8 { '8' }
    else { '9' }
}

/// Decimal notation of a natural number, without leading zeros.
pub open spec fn decimal(n: nat) -> Seq<char>
    decreases n,
{
    if n < 10 {
        seq![digit(n)]
    } else {
        decimal(n / 10).push(digit(n % 10))
    }
}

fn digit_char(d: u64) -> (c: char)
    requires
        d < 10,
    ensures
        c == digit(d as nat),
{
    if d == 0 { '0' }
    else if d == 1 { '1' }
    else if d == 2 { '2' }
    else if d == 3 { '3' }
    else if d == 4 { '4' }
    else if d == 5 { '5' }
    else if d == 6 { '6' }
    else if d == 7 { '7' }
    else if d == 8 { '8' }
    else { '9' }
}

/// Appends the decimal notation of `n` to `s`.
pub fn push_decimal(s: &mut String, n: u64)
    ensures
        final(s)@ == old(s)@ + decimal(n as nat),
    decreases n,
{
    if n < 10 {
        push_char(s, digit_char(n));
        proof {
            assert(old(s)@.push(digit(n as nat)) =~= old(s)@ + seq![digit(n as nat)]);
        }
    } else {
        push_decimal(s, n / 10);
        push_char(s, digit_char(n % 10));
        proof {
            assert(old(s)@ + decimal(n as nat / 10) + seq![digit(n as nat % 10)] =~= old(s)@
                + decimal(n as nat));
        }
    }
}

/// Appends the decimal notation of a wide unsigned integer.
pub fn push_wide_decimal(s: &mut String, n: u128)
    ensures
        final(s)@ == old(s)@ + decimal(n as nat),
    decreases n,
{
    if n < 10 {
        push_char(s, digit_char(n as u64));
        proof {
            assert(old(s)@.push(digit(n as nat)) =~= old(s)@ + seq![digit(n as nat)]);
        }
    } else {
        push_wide_decimal(s, n / 10);
        push_char(s, digit_char((n % 10) as u64));
        proof {
            assert(old(s)@ + decimal(n as nat / 10) + seq![digit(n as nat % 10)] =~= old(s)@
                + decimal(n as nat));
        }
    }
}

/// Decimal notation of an unsigned integer (`u64::to_string`).
pub fn decimal_string(n: u64) -> (s: String)
    ensures
        s@ == decimal(n as nat),
{
    let mut s = String::new();
    push_decimal(&mut s, n);
    proof {
        assert(Seq::<char>::empty() + decimal(n as nat) =~= decimal(n as nat));
    }
    s
}

/// Decimal notation of a signed integer, with a leading `-` when negative.
pub open spec fn signed_decimal(n: int) -> Seq<char> {
    if n < 0 {
        seq!['-'] + decimal((-n) as nat)
    } else {
        decimal(n as nat)
    }
}

/// Appends the decimal notation of a signed integer (`i32` display).
pub fn push_signed_decimal(s: &mut String, n: i32)
    ensures
        final(s)@ == old(s)@ + signed_decimal(n as int),
{
    if n < 0 {
        push_char(s, '-');
        let m: i64 = -(n as i64);
        push_decimal(s, m as u64);
        proof {
            assert(old(s)@.push('-') + decimal((-n) as nat) =~= old(s)@ + (seq!['-'] + decimal(
                (-n) as nat,
            )));
        }
    } else {
        push_decimal(s, n as u64);
    }
}

/// Whether `needle` occurs in `hay` starting at position `i`.
pub open spec fn occurs_at(hay: Seq<char>, needle: Seq<char>, i: int) -> bool {
    0 <= i && i + needle.len() <= hay.len() && hay.subrange(i, i + needle.len()) == needle
}

/// Whether `needle` occurs anywhere in `hay` (`str::contains`).
pub open spec fn contains_seq(hay: Seq<char>, needle: Seq<char>) -> bool {
    exists|i: int| #[trigger] occurs_at(hay, needle, i)
}

fn matches_at(x: &Vec<char>, y: &Vec<char>, i: usize) -> (r: bool)
    requires
        i + y@.len() <= x@.len(),
    ensures
        r == occurs_at(x@, y@, i as int),
{
    let mut k: usize = 0;
    while k < y.len()
        invariant
            i + y@.len() <= x@.len(),
            0 <= k <= y@.len(),
            forall|j: int| 0 <= j < k ==> x@[i + j] == y@[j],
        decreases y.len() - k,
    {
        assert(i + k < x.len());
        if x[i + k] != y[k] {
            proof {
                assert(x@.subrange(i as int, i + y@.len())[k as int] != y@[k as int]);
            }
            return false;
        }
        k = k + 1;
    }
    proof {
        assert(x@.subrange(i as int, i + y@.len()) =~= y@);
    }
    true
}

/// Whether `needle` occurs in `hay`.
pub fn contains(hay: &str, needle: &str) -> (r: bool)
    ensures
        r == contains_seq(hay@, needle@),
{
    let x = chars_of(hay);
    let y = chars_of(needle);
    if y.len() > x.len() {
        proof {
            assert forall|i: int| !occurs_at(hay@, needle@, i) by {}
        }
        return false;
    }
    let mut i: usize = 0;
    let last = x.len() - y.len();
    loop
        invariant
            x@ == hay@,
            y@ == needle@,
            y@.len() <= x@.len(),
            last == x@.len() - y@.len(),
            i <= last,
            forall|j: int| 0 <= j < i ==> !occurs_at(x@, y@, j),
        ensures
            forall|j: int| 0 <= j <= last ==> !occurs_at(x@, y@, j),
        decreases last - i,
    {
        if matches_at(&x, &y, i) {
            return true;
        }
        if i == last {
            break;
        }
        i = i + 1;
    }
    proof {
        assert forall|j: int| !occurs_at(hay@, needle@, j) by {
            if 0 <= j <= last {
            } else {
            }
        }
    }
    false
}

/// Whether `s` starts with `prefix`.
pub fn starts_with(s: &str, prefix: &str) -> (r: bool)
    ensures
        r == (prefix@.len() <= s@.len() && s@.subrange(0, prefix@.len() as int) == prefix@),
{
    let x = chars_of(s);
    let y = chars_of(prefix);
    if y.len() > x.len() {
        return false;
    }
    matches_at(&x, &y, 0)
}

/// Whether `s` ends with `suffix`.
pub fn ends_with(s: &str, suffix: &str) -> (r: bool)
    ensures
        r == (suffix@.len() <= s@.len() && s@.subrange(s@.len() - suffix@.len(), s@.len() as int)
            == suffix@),
{
    let x = chars_of(s);
    let y = chars_of(suffix);
    if y.len() > x.len() {
        return false;
    }
    matches_at(&x, &y, x.len() - y.len())
}

} // verus!

verus! {

/// The pieces of `s` cut after every `'\n'` (`str::split_inclusive('\n')`):
/// reading left to right, a character starts a new piece when there is no
/// piece yet or the last piece already ends with a newline, and otherwise
/// extends the last piece.
pub open spec fn pieces(s: Seq<char>) -> Seq<Seq<char>>
    decreases s.len(),
{
    if s.len() == 0 {
        Seq::empty()
    } else {
        let p = pieces(s.drop_last());
        if p.len() == 0 || p.last().last() == '\n' {
            p.push(seq![s.last()])
        } else {
            p.update(p.len() - 1, p.last().push(s.last()))
        }
    }
}

/// Concatenation of a sequence of character sequences.
pub open spec fn concat(parts: Seq<Seq<char>>) -> Seq<char>
    decreases parts.len(),
{
    if parts.len() == 0 {
        Seq::empty()
    } else {
        concat(parts.drop_last()) + parts.last()
    }
}

/// Gluing the pieces back together gives the original text, and every piece
/// is non-empty.
pub proof fn lemma_pieces_concat(s: Seq<char>)
    ensures
        concat(pieces(s)) == s,
        forall|i: int| 0 <= i < pieces(s).len() ==> #[trigger] pieces(s)[i].len() > 0,
        s.len() > 0 ==> pieces(s).len() > 0,
    decreases s.len(),
{
    if s.len() > 0 {
        let p = pieces(s.drop_last());
        lemma_pieces_concat(s.drop_last());
        if p.len() == 0 || p.last().last() == '\n' {
            assert(pieces(s).drop_last() =~= p);
            assert(s =~= s.drop_last() + seq![s.last()]);
        } else {
            let q = pieces(s);
            assert(q.drop_last() =~= p.drop_last());
            assert(concat(p) == concat(p.drop_last()) + p.last());
            assert(s =~= (concat(p.drop_last()) + p.last()).push(s.last()));
            assert(concat(q) =~= concat(p.drop_last()) + p.last().push(s.last()));
        }
    }
}

proof fn lemma_concat_push(parts: Seq<Seq<char>>, x: Seq<char>)
    ensures
        concat(parts.push(x)) == concat(parts) + x,
{
    assert(parts.push(x).drop_last() =~= parts);
}

/// `s` cut after every newline, keeping the newlines.
pub fn split_pieces(s: &str) -> (r: Vec<String>)
    ensures
        r@.map_values(|x: String| x@) == pieces(s@),
{
    let v = chars_of(s);
    let mut out: Vec<String> = Vec::new();
    let mut cur = String::new();
    let mut i: usize = 0;
    while i < v.len()
        invariant
            0 <= i <= v@.len(),
            v@ == s@,
            cur@.len() == 0 ==> out@.map_values(|x: String| x@) == pieces(v@.take(i as int)),
            cur@.len() > 0 ==> out@.map_values(|x: String| x@).push(cur@) == pieces(
                v@.take(i as int),
            ),
            cur@.len() > 0 ==> cur@.last() != '\n',
            out@.len() > 0 ==> out@.last()@.last() == '\n',
            forall|k: int| 0 <= k < out@.len() ==> (#[trigger] out@[k])@.len() > 0,
        decreases v.len() - i,
    {
        let c = v[i];
        let ghost before = v@.take(i as int);
        let ghost old_cur = cur@;
        let ghost old_out = out@.map_values(|x: String| x@);
        proof {
            assert(v@.take(i + 1).drop_last() =~= before);
            assert(v@.take(i + 1).last() == c);
        }
        push_char(&mut cur, c);
        proof {
            let p = pieces(before);
            if old_cur.len() == 0 {
                assert(cur@ =~= seq![c]);
                assert(pieces(v@.take(i + 1)) == p.push(seq![c]));
            } else {
                assert(p.last() == old_cur);
                assert(p.update(p.len() - 1, p.last().push(c)) =~= old_out.push(cur@));
            }
        }
        if c == '\n' {
            out.push(cur);
            proof {
                assert(out@.map_values(|x: String| x@) =~= old_out.push(cur@));
            }
            cur = String::new();
        }
        i = i + 1;
    }
    if !cur.as_str().is_empty() {
        let ghost old_out = out@.map_values(|x: String| x@);
        out.push(cur);
        proof {
            assert(out@.map_values(|x: String| x@) =~= old_out.push(cur@));
        }
    }
    proof {
        assert(v@.take(v@.len() as int) =~= v@);
    }
    out
}

/// A piece without its line ending, `\n` or `\r\n`, as `str::lines` gives it.
pub open spec fn strip_line_end(p: Seq<char>) -> Seq<char> {
    if p.len() > 0 && p.last() == '\n' {
        let q = p.drop_last();
        if q.len() > 0 && q.last() == '\r' {
            q.drop_last()
        } else {
            q
        }
    } else {
        p
    }
}

/// A piece of text without its line ending.
pub fn line_text(piece: &str) -> (r: String)
    ensures
        r@ == strip_line_end(piece@),
{
    let v = chars_of(piece);
    let mut end = v.len();
    if end > 0 && v[end - 1] == '\n' {
        end = end - 1;
        if end > 0 && v[end - 1] == '\r' {
            end = end - 1;
        }
    }
    let r = string_from_range(&v, 0, end);
    proof {
        if v@.len() > 0 && v@.last() == '\n' {
            assert(v@.drop_last() =~= v@.subrange(0, v@.len() - 1));
            if v@.len() > 1 && v@[v@.len() - 2] == '\r' {
                assert(v@.drop_last().drop_last() =~= v@.subrange(0, v@.len() - 2));
            }
        } else {
            assert(v@ =~= v@.subrange(0, v@.len() as int));
        }
    }
    r
}

} // verus!
