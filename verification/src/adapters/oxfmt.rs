//! How Oxfmt formats a file from stdin, and its one known unsupported case.
use vstd::prelude::*;

use crate::capabilities::file_name;
use crate::paths::views;
use crate::text::{chars_of, contains_seq, is_white, owned, str_eq};

verus! {

/// `--stdin-filepath <path>`.
pub fn arguments(path: &str) -> (r: Vec<String>)
    ensures
        views(r@) == seq!["--stdin-filepath"@, path@],
{
    let mut r: Vec<String> = Vec::new();
    r.push(owned("--stdin-filepath"));
    r.push(owned(path));
    proof {
        assert(views(r@) =~= seq!["--stdin-filepath"@, path@]);
    }
    r
}

/// The text of a byte string, with invalid UTF-8 replaced (`String::from_utf8_lossy`).
pub uninterp spec fn lossy_text(bytes: Seq<u8>) -> Seq<char>;

/// Decodes bytes as UTF-8, replacing invalid sequences (`String::from_utf8_lossy`);
/// valid UTF-8 comes back as the text it encodes.
#[verifier::external_body]
pub(crate) fn lossy(bytes: &[u8]) -> (r: String)
    ensures
        r@ == lossy_text(bytes@),
        forall|s: Seq<char>| vstd::utf8::encode_utf8(s) == bytes@ ==> r@ == s,
{
    String::from_utf8_lossy(bytes).into_owned()
}

/// The white-space separated word that starts at `k` is some `v`s followed by
/// `0.60.0`, which starts at `i`.
pub open spec fn oxfmt_version_word(v: Seq<char>, k: int, i: int) -> bool {
    &&& 0 <= k <= i
    &&& i + 6 <= v.len()
    &&& (k == 0 || is_white(v[k - 1]))
    &&& forall|t: int| k <= t < i ==> v[t] == 'v'
    &&& v.subrange(i, i + 6) == "0.60.0"@
    &&& (i + 6 == v.len() || is_white(v[i + 6]))
}

/// Some word of the version text, without its leading `v`s, is `0.60.0`.
pub open spec fn names_oxfmt_0_60(v: Seq<char>) -> bool {
    exists|k: int, i: int| #[trigger] oxfmt_version_word(v, k, i)
}

/// The message by which Oxfmt 0.60.0 refuses `package-lock.json`.
pub open spec fn refusal_message() -> Seq<char> {
    "No parser could be inferred for file"@
}

/// Whether the version text has a word that is `0.60.0` after its leading `v`s.
fn names_version(version: &str) -> (r: bool)
    ensures
        r == names_oxfmt_0_60(version@),
{
    let v = chars_of(version);
    let n = v.len();
    proof {
        reveal_strlit("0.60.0");
    }
    let mut k: usize = 0;
    while k < n
        invariant
            0 <= k <= n,
            n == v@.len(),
            v@ == version@,
            forall|a: int, b: int| 0 <= a < k && #[trigger] oxfmt_version_word(v@, a, b) ==> false,
        decreases n - k,
    {
        if k == 0 || crate::text::is_whitespace(v[k - 1]) {
            let mut i = k;
            while i < n && v[i] == 'v'
                invariant
                    k <= i <= n,
                    n == v@.len(),
                    forall|t: int| k <= t < i ==> v@[t] == 'v',
                decreases n - i,
            {
                i = i + 1;
            }
            if i < n && n - i >= 6 && v[i] == '0' && v[i + 1] == '.' && v[i + 2] == '6' && v[i + 3] == '0'
                && v[i + 4] == '.' && v[i + 5] == '0' && (i + 6 == n || crate::text::is_whitespace(v[i + 6])) {
                proof {
                    reveal_strlit("0.60.0");
                    assert(v@.subrange(i as int, i + 6) =~= "0.60.0"@);
                    assert(oxfmt_version_word(v@, k as int, i as int));
                }
                return true;
            }
            proof {
                reveal_strlit("0.60.0");
                assert forall|b: int| #[trigger] oxfmt_version_word(v@, k as int, b) implies false by {
                    if b < i {
                        assert(v@.subrange(b, b + 6)[0] == v@[b]);
                        assert(v@[b] == 'v');
                    } else if b > i {
                        assert(v@[i as int] == 'v');
                    } else {
                        assert(v@.subrange(b, b + 6)[0] == v@[b]);
                        assert(v@.subrange(b, b + 6)[1] == v@[b + 1]);
                        assert(v@.subrange(b, b + 6)[2] == v@[b + 2]);
                        assert(v@.subrange(b, b + 6)[3] == v@[b + 3]);
                        assert(v@.subrange(b, b + 6)[4] == v@[b + 4]);
                        assert(v@.subrange(b, b + 6)[5] == v@[b + 5]);
                    }
                }
            }
        }
        k = k + 1;
    }
    false
}

/// Why Oxfmt failed on a file it does not support: only Oxfmt 0.60.0 refusing
/// `package-lock.json` with its parser-inference message counts.
pub fn runtime_unsupported_reason(version: &str, path: &str, stderr: &[u8]) -> (r: Option<String>)
    ensures
        match r {
            Some(reason) => reason@ == "Oxfmt 0.60.0 does not support package-lock.json via stdin"@,
            None => true,
        },
        r is Some <==> (names_oxfmt_0_60(version@) && file_name(path@) == Some("package-lock.json"@)
            && contains_seq(lossy_text(stderr@), refusal_message())),
{
    let exact_version = names_version(version);
    let package_lock = match crate::capabilities::file_name_of(path) {
        Some(name) => str_eq(name.as_str(), "package-lock.json"),
        None => false,
    };
    let message = lossy(stderr);
    let official = crate::text::contains(message.as_str(), "No parser could be inferred for file");
    if exact_version && package_lock && official {
        Some(owned("Oxfmt 0.60.0 does not support package-lock.json via stdin"))
    } else {
        None
    }
}

} // verus!
