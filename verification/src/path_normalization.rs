//! Keys for comparing paths on Windows.

use vstd::prelude::*;

use crate::text;

verus! {

/// The key of a path: forward slashes and lower case.
pub open spec fn path_key(path: Seq<char>) -> Seq<char> {
    text::ascii_lower(text::replace_char(path, '\\', '/'))
}

/// Whether a path is on a WSL share, where access control lists do not work.
pub open spec fn is_on_wsl_share(path: Seq<char>) -> bool {
    let key = path_key(path);
    ||| "//wsl.localhost/"@.is_prefix_of(key)
    ||| "//wsl$/"@.is_prefix_of(key)
    ||| "//?/unc/wsl.localhost/"@.is_prefix_of(key)
    ||| "//?/unc/wsl$/"@.is_prefix_of(key)
}

/// The key of a path that is canonical already.
pub fn canonical_path_key(path: &str) -> (r: String)
    ensures
        r@ == path_key(path@),
{
    let chars = text::chars_of(path);
    let slashes = text::replaced(&chars, '\\', '/');
    text::string_of(&text::lower_chars(&slashes))
}

/// Whether a path that is canonical already is on a WSL share.
pub fn is_acl_unsupported_path(path: &str) -> (r: bool)
    ensures
        r == is_on_wsl_share(path@),
{
    let key = text::chars_of(canonical_path_key(path).as_str());
    text::starts_with(&key, &text::chars_of("//wsl.localhost/")) || text::starts_with(
        &key,
        &text::chars_of("//wsl$/"),
    ) || text::starts_with(&key, &text::chars_of("//?/unc/wsl.localhost/")) || text::starts_with(
        &key,
        &text::chars_of("//?/unc/wsl$/"),
    )
}

/// Paths that differ only in ASCII case and in the spelling of separators have
/// the same key, and a key is its own key.
pub proof fn law_keys_fold_case_and_separators(a: Seq<char>, b: Seq<char>)
    ensures
        path_key(a) == path_key(b) <==> a.len() == b.len() && forall|i: int|
            0 <= i < a.len() ==> path_key(seq![#[trigger] a[i]]) == path_key(seq![b[i]]),
        path_key(path_key(a)) == path_key(a),
{
    let ka = path_key(a);
    let kb = path_key(b);
    assert forall|i: int| 0 <= i < a.len() implies path_key(seq![#[trigger] a[i]]) == seq![
        ka[i],
    ] by {
        assert(path_key(seq![a[i]]) =~= seq![ka[i]]);
    }
    assert forall|i: int| 0 <= i < b.len() implies path_key(seq![#[trigger] b[i]]) == seq![
        kb[i],
    ] by {
        assert(path_key(seq![b[i]]) =~= seq![kb[i]]);
    }
    if ka == kb {
        assert(a.len() == ka.len() && b.len() == kb.len());
        assert forall|i: int| 0 <= i < a.len() implies path_key(seq![#[trigger] a[i]]) == path_key(
            seq![b[i]],
        ) by {
            assert(path_key(seq![b[i]]) == seq![kb[i]]);
        }
    }
    if a.len() == b.len() && forall|i: int|
        0 <= i < a.len() ==> path_key(seq![#[trigger] a[i]]) == path_key(seq![b[i]]) {
        assert forall|i: int| 0 <= i < ka.len() implies ka[i] == kb[i] by {
            assert(path_key(seq![a[i]]) == path_key(seq![b[i]]));
            assert(seq![ka[i]][0] == seq![kb[i]][0]);
        }
        assert(ka =~= kb);
    }
    assert(path_key(ka) =~= ka);
}

/// A key has a slash for every backslash, a small letter for every capital one of
/// ASCII, and every other character as it is.
pub proof fn law_keys_by_character(path: Seq<char>, i: int)
    requires
        0 <= i < path.len(),
    ensures
        path_key(path).len() == path.len(),
        path[i] == '\\' ==> path_key(path)[i] == '/',
        'A' <= path[i] && path[i] <= 'Z' ==> path_key(path)[i] as u32 == path[i] as u32 + 32,
        path[i] != '\\' && !('A' <= path[i] && path[i] <= 'Z') ==> path_key(path)[i] == path[i],
{
    lemma_lower_code(path[i]);
}

proof fn lemma_lower_code(c: char)
    ensures
        'A' <= c && c <= 'Z' ==> text::ascii_lower_char(c) as u32 == c as u32 + 32,
{
}

/// What lies on a WSL share does so however deep it is, and paths with one key lie
/// there together or not at all. The shares are those of `wsl.localhost` and `wsl$`,
/// plain or verbatim.
pub proof fn law_wsl_shares(a: Seq<char>, b: Seq<char>, rest: Seq<char>)
    ensures
        is_on_wsl_share(a) ==> is_on_wsl_share(a + rest),
        path_key(a) == path_key(b) ==> is_on_wsl_share(a) == is_on_wsl_share(b),
        is_on_wsl_share("//wsl.localhost/"@),
        is_on_wsl_share("//wsl$/"@),
        is_on_wsl_share("//?/unc/wsl.localhost/"@),
        is_on_wsl_share("//?/unc/wsl$/"@),
        is_on_wsl_share(a) ==> {
            let key = path_key(a);
            ||| "//wsl.localhost/"@.is_prefix_of(key)
            ||| "//wsl$/"@.is_prefix_of(key)
            ||| "//?/unc/wsl.localhost/"@.is_prefix_of(key)
            ||| "//?/unc/wsl$/"@.is_prefix_of(key)
        },
{
    let key = path_key(a);
    let longer = path_key(a + rest);
    assert(longer =~= key + path_key(rest));
    reveal_strlit("//wsl.localhost/");
    reveal_strlit("//wsl$/");
    reveal_strlit("//?/unc/wsl.localhost/");
    reveal_strlit("//?/unc/wsl$/");
    assert(path_key("//wsl.localhost/"@) =~= "//wsl.localhost/"@);
    assert(path_key("//wsl$/"@) =~= "//wsl$/"@);
    assert(path_key("//?/unc/wsl.localhost/"@) =~= "//?/unc/wsl.localhost/"@);
    assert(path_key("//?/unc/wsl$/"@) =~= "//?/unc/wsl$/"@);
    lemma_prefix_of_longer("//wsl.localhost/"@, key, path_key(rest));
    lemma_prefix_of_longer("//wsl$/"@, key, path_key(rest));
    lemma_prefix_of_longer("//?/unc/wsl.localhost/"@, key, path_key(rest));
    lemma_prefix_of_longer("//?/unc/wsl$/"@, key, path_key(rest));
}

proof fn lemma_prefix_of_longer(head: Seq<char>, s: Seq<char>, more: Seq<char>)
    ensures
        head.is_prefix_of(s) ==> head.is_prefix_of(s + more),
{
    if head.is_prefix_of(s) {
        assert((s + more).subrange(0, head.len() as int) =~= s.subrange(0, head.len() as int));
    }
}

} // verus!
