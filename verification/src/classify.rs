//! The extension classifier: given an existing path, decide whether it ends
//! with a registered suffix, which descriptor that is, and what the base
//! name without the suffix is.
//!
//! All comparisons are exact, case-sensitive comparisons over code points,
//! made in the registry's precedence order.

use vstd::prelude::*;
use vstd::string::StrSliceExecFns;

use crate::registry::extension_order;
use crate::registry::ShellExtension;

verus! {

/// `s` is a suffix of `p`, compared code point by code point.
pub open spec fn suffix_matches(p: Seq<char>, s: Seq<char>) -> bool {
    s.len() <= p.len() && p.subrange(p.len() - s.len(), p.len() as int) == s
}

/// The first descriptor in `exts` whose suffix `p` ends with, if any.
pub open spec fn classify_from(p: Seq<char>, exts: Seq<ShellExtension>) -> Option<ShellExtension>
    decreases exts.len(),
{
    if exts.len() == 0 {
        None
    } else if suffix_matches(p, exts[0].suffix()) {
        Some(exts[0])
    } else {
        classify_from(p, exts.drop_first())
    }
}

/// The registered descriptor whose suffix `p` ends with, if any, probed in
/// precedence order.
pub open spec fn classify_spec(p: Seq<char>) -> Option<ShellExtension> {
    classify_from(p, extension_order())
}

/// `p` ends with the suffix of some registered descriptor.
pub open spec fn has_ext_spec(p: Seq<char>) -> bool {
    exists|i: int|
        0 <= i < extension_order().len() && #[trigger] suffix_matches(
            p,
            extension_order()[i].suffix(),
        )
}

/// `p` with its matching registered suffix removed, if one matches.
pub open spec fn strip_spec(p: Seq<char>) -> Option<Seq<char>> {
    match classify_spec(p) {
        Some(e) => Some(p.subrange(0, p.len() - e.suffix().len())),
        None => None,
    }
}

/// Whether `p` ends with `s`, compared code point by code point.
fn str_has_suffix(p: &str, s: &str) -> (r: bool)
    ensures
        r == suffix_matches(p@, s@),
{
    let n: usize = p.unicode_len();
    let m: usize = s.unicode_len();
    if m > n {
        return false;
    }
    let mut i: usize = 0;
    while i < m
        invariant
            i <= m,
            m <= n,
            n == p@.len(),
            m == s@.len(),
            forall|j: int| 0 <= j < i ==> p@[n - m + j] == s@[j],
        decreases m - i,
    {
        let pc = p.get_char(n - m + i);
        let sc = s.get_char(i);
        if pc != sc {
            proof {
                if suffix_matches(p@, s@) {
                    assert(p@.subrange(n - m, n as int)[i as int] == p@[n - m + i]);
                }
            }
            return false;
        }
        i += 1;
    }
    proof {
        assert(p@.subrange(n - m, n as int) =~= s@);
    }
    true
}

/// Check if a path has one of our supported extensions. The result does not
/// say which suffix matched.
pub fn has_shell_extension(path: &str) -> (r: bool)
    ensures
        r == has_ext_spec(path@),
{
    let exts = ShellExtension::all_extensions();
    let mut i: usize = 0;
    while i < exts.len()
        invariant
            exts@ == extension_order(),
            i <= exts@.len(),
            forall|j: int|
                0 <= j < i ==> !suffix_matches(path@, #[trigger] extension_order()[j].suffix()),
        decreases exts@.len() - i,
    {
        let ext = exts[i];
        if str_has_suffix(path, ext.as_str()) {
            proof {
                assert(suffix_matches(path@, extension_order()[i as int].suffix()));
            }
            return true;
        }
        i += 1;
    }
    false
}

/// Get the file extension of a path as a `ShellExtension`, probing the
/// registry in precedence order. At most one descriptor can match, since
/// the registered suffixes are distinct literals.
pub fn get_shell_extension(path: &str) -> (r: Option<ShellExtension>)
    ensures
        r == classify_spec(path@),
{
    let exts = ShellExtension::all_extensions();
    proof {
        assert(extension_order().skip(0) =~= extension_order());
    }
    let mut i: usize = 0;
    while i < exts.len()
        invariant
            exts@ == extension_order(),
            i <= exts@.len(),
            classify_spec(path@) == classify_from(path@, extension_order().skip(i as int)),
        decreases exts@.len() - i,
    {
        let ext = exts[i];
        if str_has_suffix(path, ext.as_str()) {
            proof {
                assert(extension_order().skip(i as int)[0] == extension_order()[i as int]);
            }
            return Some(ext);
        }
        proof {
            assert(extension_order().skip(i as int).drop_first() =~= extension_order().skip(
                i as int + 1,
            ));
        }
        i += 1;
    }
    None
}

/// Get the base name of a path without its registered suffix, or no result
/// if the path ends with none of the registered suffixes.
pub fn strip_shell_extension(path: &str) -> (r: Option<&str>)
    ensures
        r is Some <==> strip_spec(path@) is Some,
        r matches Some(b) ==> Some(b@) == strip_spec(path@),
{
    let exts = ShellExtension::all_extensions();
    let n: usize = path.unicode_len();
    proof {
        assert(extension_order().skip(0) =~= extension_order());
    }
    let mut i: usize = 0;
    while i < exts.len()
        invariant
            exts@ == extension_order(),
            i <= exts@.len(),
            n == path@.len(),
            classify_spec(path@) == classify_from(path@, extension_order().skip(i as int)),
        decreases exts@.len() - i,
    {
        let ext = exts[i];
        let suf = ext.as_str();
        if str_has_suffix(path, suf) {
            let m: usize = suf.unicode_len();
            proof {
                assert(extension_order().skip(i as int)[0] == extension_order()[i as int]);
            }
            let base = path.substring_char(0, n - m);
            return Some(base);
        }
        proof {
            assert(extension_order().skip(i as int).drop_first() =~= extension_order().skip(
                i as int + 1,
            ));
        }
        i += 1;
    }
    None
}

/// How the first descriptor found relates to any match at all in `exts`:
/// the probe finds a descriptor exactly when some descriptor's suffix
/// matches, and whatever it finds does match.
proof fn lemma_classify_from_exists(p: Seq<char>, exts: Seq<ShellExtension>)
    ensures
        (classify_from(p, exts) is Some) <==> exists|i: int|
            0 <= i < exts.len() && #[trigger] suffix_matches(p, exts[i].suffix()),
        classify_from(p, exts) matches Some(e) ==> suffix_matches(p, e.suffix()),
    decreases exts.len(),
{
    if exts.len() == 0 {
    } else {
        let rest = exts.drop_first();
        lemma_classify_from_exists(p, rest);
        if suffix_matches(p, exts[0].suffix()) {
            assert(suffix_matches(p, exts[0].suffix()));
        } else {
            if classify_from(p, exts) is Some {
                let j = choose|j: int| 0 <= j < rest.len() && #[trigger] suffix_matches(
                    p,
                    rest[j].suffix(),
                );
                assert(exts[j + 1] == rest[j]);
                assert(suffix_matches(p, exts[j + 1].suffix()));
            }
            if exists|i: int|
                0 <= i < exts.len() && #[trigger] suffix_matches(p, exts[i].suffix()) {
                let i = choose|i: int|
                    0 <= i < exts.len() && #[trigger] suffix_matches(p, exts[i].suffix());
                assert(rest[i - 1] == exts[i]);
                assert(suffix_matches(p, rest[i - 1].suffix()));
            }
        }
    }
}

/// The classifier, the suffix test and the stripper agree on every path:
/// a path has a supported extension exactly when stripping it yields a
/// result, exactly when classification yields a descriptor; and stripping
/// removes exactly the classified descriptor's suffix, so that base name
/// plus suffix reassemble the path.
pub proof fn lemma_classifier_consistency(p: Seq<char>)
    ensures
        has_ext_spec(p) <==> strip_spec(p) is Some,
        (classify_spec(p) is Some) <==> has_ext_spec(p),
        classify_spec(p) matches Some(e) ==> suffix_matches(p, e.suffix()) && strip_spec(p)
            == Some(p.subrange(0, p.len() - e.suffix().len())) && p == strip_spec(p).unwrap()
            + e.suffix(),
{
    lemma_classify_from_exists(p, extension_order());
    if classify_spec(p) is Some {
        let e = classify_spec(p).unwrap();
        assert(suffix_matches(p, e.suffix()));
        assert(p =~= p.subrange(0, p.len() - e.suffix().len()) + p.subrange(
            p.len() - e.suffix().len(),
            p.len() as int,
        ));
    }
}

} // verus!
