//! The path resolver: build one candidate path per registered extension,
//! in precedence order, and return the first candidate whose identity
//! token says the file exists.
//!
//! The filesystem query itself is an external primitive; callers probe
//! each candidate path once and hand the resulting identity tokens in,
//! one per registered extension, in the registry's order. The outcome
//! then depends only on which candidates exist, never on directory
//! listing order.

use vstd::prelude::*;
use vstd::string::StringExecFns;

use crate::classify::classify_from;
use crate::classify::classify_spec;
use crate::classify::suffix_matches;
use crate::file_id::FileId;
use crate::registry::extension_order;
use crate::registry::ShellExtension;

verus! {

/// The candidate path probed for `name` under `base` with extension `e`:
/// `base`, a separator, `name`, then `e`'s suffix.
pub open spec fn candidate_spec(base: Seq<char>, name: Seq<char>, e: ShellExtension) -> Seq<char> {
    base + seq!['/'] + name + e.suffix()
}

/// Build the candidate path probed for `file_name` under `base_path` with
/// extension `ext`.
pub fn candidate_path(base_path: &str, file_name: &str, ext: &ShellExtension) -> (r: String)
    ensures
        r@ == candidate_spec(base_path@, file_name@, *ext),
{
    proof {
        reveal_strlit("/");
        assert("/"@ =~= seq!['/']);
    }
    let mut p = base_path.to_owned();
    p.append("/");
    p.append(file_name);
    p.append(ext.as_str());
    p
}

/// The result of probing the candidates for `exts`, given the identity
/// token each probe returned (`ids[i]` for `exts[i]`): the first candidate
/// whose token is not the sentinel, paired with that token.
pub open spec fn resolve_from(
    base: Seq<char>,
    name: Seq<char>,
    exts: Seq<ShellExtension>,
    ids: Seq<FileId>,
) -> Option<(Seq<char>, FileId)>
    decreases exts.len(),
{
    if exts.len() == 0 || ids.len() == 0 {
        None
    } else if ids[0].is_valid_spec() {
        Some((candidate_spec(base, name, exts[0]), ids[0]))
    } else {
        resolve_from(base, name, exts.drop_first(), ids.drop_first())
    }
}

/// The result of probing the full registry in precedence order.
pub open spec fn resolve_spec(base: Seq<char>, name: Seq<char>, ids: Seq<FileId>) -> Option<
    (Seq<char>, FileId),
> {
    resolve_from(base, name, extension_order(), ids)
}

/// Try to locate a file with any of the supported extensions, following
/// the priority order in `ShellExtension::all_extensions()`.
///
/// `ids` holds the identity token the filesystem primitive returned for
/// each candidate path, one per registered extension in registry order;
/// the sentinel token stands for a candidate that does not exist (or whose
/// probe failed). Returns the highest-precedence existing candidate's path
/// and token, or no result if every token is the sentinel.
pub fn find_file_with_any_extension(base_path: &str, file_name: &str, ids: &Vec<FileId>) -> (r:
    Option<(String, FileId)>)
    requires
        ids@.len() == extension_order().len(),
    ensures
        r is Some <==> resolve_spec(base_path@, file_name@, ids@) is Some,
        r matches Some(p) ==> Some((p.0@, p.1)) == resolve_spec(base_path@, file_name@, ids@),
{
    let exts = ShellExtension::all_extensions();
    proof {
        assert(extension_order().skip(0) =~= extension_order());
        assert(ids@.skip(0) =~= ids@);
    }
    let mut i: usize = 0;
    while i < exts.len()
        invariant
            exts@ == extension_order(),
            ids@.len() == extension_order().len(),
            i <= exts@.len(),
            resolve_spec(base_path@, file_name@, ids@) == resolve_from(
                base_path@,
                file_name@,
                extension_order().skip(i as int),
                ids@.skip(i as int),
            ),
        decreases exts@.len() - i,
    {
        let id = ids[i];
        if id.is_valid() {
            let path = candidate_path(base_path, file_name, &exts[i]);
            proof {
                assert(extension_order().skip(i as int)[0] == extension_order()[i as int]);
                assert(ids@.skip(i as int)[0] == ids@[i as int]);
            }
            return Some((path, id));
        }
        proof {
            assert(extension_order().skip(i as int).drop_first() =~= extension_order().skip(
                i as int + 1,
            ));
            assert(ids@.skip(i as int).drop_first() =~= ids@.skip(i as int + 1));
        }
        i += 1;
    }
    None
}

/// A candidate path built for a descriptor classifies as exactly that
/// descriptor: the built path ends with the descriptor's suffix and with
/// no other registered suffix.
pub proof fn lemma_candidate_classifies_as_built(
    base: Seq<char>,
    name: Seq<char>,
    e: ShellExtension,
)
    ensures
        classify_spec(candidate_spec(base, name, e)) == Some(e),
        suffix_matches(candidate_spec(base, name, e), e.suffix()),
{
    let c = candidate_spec(base, name, e);
    let k = e.suffix().len();
    assert(c.subrange(c.len() - k, c.len() as int) =~= e.suffix());
    assert(suffix_matches(c, e.suffix()));
    let nos = ShellExtension::Nos;
    let fish = ShellExtension::Fish;
    if e == nos {
        assert(extension_order()[0] == nos);
        assert(classify_from(c, extension_order()) == Some(nos));
    } else {
        if suffix_matches(c, nos.suffix()) {
            assert(c.subrange(c.len() - 4, c.len() as int)[3] == c[c.len() - 1]);
            assert(c.subrange(c.len() - 5, c.len() as int)[4] == c[c.len() - 1]);
            assert(nos.suffix()[3] == 's');
            assert(fish.suffix()[4] == 'h');
            assert(false);
        }
        let rest = extension_order().drop_first();
        assert(rest =~= seq![fish]);
        assert(classify_from(c, rest) == Some(fish));
        assert(classify_from(c, extension_order()) == Some(fish));
    }
}

/// When no candidate file exists under any registered suffix (every probe
/// returned the sentinel), resolution yields no result.
pub proof fn lemma_no_candidate_no_result(base: Seq<char>, name: Seq<char>, ids: Seq<FileId>)
    requires
        forall|i: int| 0 <= i < ids.len() ==> !(#[trigger] ids[i].is_valid_spec()),
    ensures
        resolve_spec(base, name, ids) is None,
{
    lemma_resolve_from_all_invalid(base, name, extension_order(), ids);
}

proof fn lemma_resolve_from_all_invalid(
    base: Seq<char>,
    name: Seq<char>,
    exts: Seq<ShellExtension>,
    ids: Seq<FileId>,
)
    requires
        forall|i: int| 0 <= i < ids.len() ==> !(#[trigger] ids[i].is_valid_spec()),
    ensures
        resolve_from(base, name, exts, ids) is None,
    decreases exts.len(),
{
    if exts.len() == 0 || ids.len() == 0 {
    } else {
        assert(forall|i: int|
            0 <= i < ids.drop_first().len() ==> ids.drop_first()[i] == ids[i + 1]);
        lemma_resolve_from_all_invalid(base, name, exts.drop_first(), ids.drop_first());
    }
}

/// The precedence law: whenever the primary-suffix candidate exists (its
/// token is not the sentinel), resolution returns that candidate, whatever
/// the other tokens are. Nothing else about the filesystem — creation
/// order, modification time, listing order — enters the model at all.
pub proof fn lemma_primary_precedence(base: Seq<char>, name: Seq<char>, ids: Seq<FileId>)
    requires
        ids.len() == extension_order().len(),
        ids[0].is_valid_spec(),
    ensures
        resolve_spec(base, name, ids) == Some(
            (candidate_spec(base, name, ShellExtension::Nos), ids[0]),
        ),
        classify_spec(candidate_spec(base, name, ShellExtension::Nos)) == Some(
            ShellExtension::Nos,
        ),
{
    lemma_candidate_classifies_as_built(base, name, ShellExtension::Nos);
}

/// When the primary-suffix candidate does not exist but the legacy one
/// does, resolution returns the legacy candidate, whose descriptor is the
/// legacy one.
pub proof fn lemma_legacy_only(base: Seq<char>, name: Seq<char>, ids: Seq<FileId>)
    requires
        ids.len() == extension_order().len(),
        !ids[0].is_valid_spec(),
        ids[1].is_valid_spec(),
    ensures
        resolve_spec(base, name, ids) == Some(
            (candidate_spec(base, name, ShellExtension::Fish), ids[1]),
        ),
        classify_spec(candidate_spec(base, name, ShellExtension::Fish)) == Some(
            ShellExtension::Fish,
        ),
{
    let rest_exts = extension_order().drop_first();
    let rest_ids = ids.drop_first();
    assert(resolve_spec(base, name, ids) == resolve_from(base, name, rest_exts, rest_ids));
    assert(rest_exts =~= seq![ShellExtension::Fish]);
    assert(rest_ids[0] == ids[1]);
    assert(resolve_from(base, name, rest_exts, rest_ids) == Some(
        (candidate_spec(base, name, ShellExtension::Fish), ids[1]),
    ));
    lemma_candidate_classifies_as_built(base, name, ShellExtension::Fish);
}

/// Resolution carries no state between calls: after a successful
/// resolution, a second call whose tokens show the primary candidate gone
/// returns the legacy candidate if its probe still finds it, and no result
/// otherwise — the earlier success has no bearing.
pub proof fn lemma_resolution_uncached(
    base: Seq<char>,
    name: Seq<char>,
    before: Seq<FileId>,
    after: Seq<FileId>,
)
    requires
        before.len() == extension_order().len(),
        after.len() == extension_order().len(),
        resolve_spec(base, name, before) is Some,
        !after[0].is_valid_spec(),
    ensures
        after[1].is_valid_spec() ==> resolve_spec(base, name, after) == Some(
            (candidate_spec(base, name, ShellExtension::Fish), after[1]),
        ),
        !after[1].is_valid_spec() ==> resolve_spec(base, name, after) is None,
{
    if after[1].is_valid_spec() {
        lemma_legacy_only(base, name, after);
    } else {
        assert(forall|i: int| 0 <= i < after.len() ==> !(#[trigger] after[i].is_valid_spec()));
        lemma_no_candidate_no_result(base, name, after);
    }
}

} // verus!
