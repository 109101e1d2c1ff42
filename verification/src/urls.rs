//! Candidate endpoints for a base URL.
//!
//! OpenAI-style APIs mostly live under `/v1`, yet many compatible servers
//! list their models at the bare root; a base URL therefore yields up to two
//! endpoints, `/v1/models` first.

use crate::text::{
    chars_end_with, chars_of, ends_with, is_whitespace, leading_whitespace,
    lemma_trim_start_is_skip, string_of, strip_trailing_slash, trim,
    trim_chars, trim_start,
};
use vstd::prelude::*;

verus! {

/// The base URL as the endpoints are derived from it: trimmed, then without
/// one trailing `/`.
pub open spec fn normalized_base_url(base: Seq<char>) -> Seq<char> {
    strip_trailing_slash(trim(base))
}

/// The endpoints to try for `base`, in the order in which they are tried.
pub open spec fn candidate_urls(base: Seq<char>) -> Seq<Seq<char>> {
    let root = normalized_base_url(base);
    if root.len() == 0 {
        Seq::empty()
    } else if ends_with(root, "/models"@) {
        seq![root]
    } else if ends_with(root, "/v1"@) {
        seq![root + "/models"@]
    } else {
        seq![root + "/v1/models"@, root + "/models"@]
    }
}

/// Trims `base_url` and drops one trailing `/`.
pub fn normalize_base_url(base_url: &str) -> (root: Vec<char>)
    ensures
        root@ == normalized_base_url(base_url@),
{
    let chars = chars_of(base_url);
    let mut root = trim_chars(&chars);
    let n = root.len();
    if n > 0 && root[n - 1] == '/' {
        root.pop();
    }
    root
}

fn join(root: &Vec<char>, tail: &str) -> (url: String)
    ensures
        url@ == root@ + tail@,
{
    let mut url = string_of(root);
    url.append(tail);
    url
}

/// Derives the endpoints to try from a base URL.
///
/// An empty base gives none. A base that already names the models endpoint
/// is taken as it is. Otherwise `/v1/models` comes first, unless the base
/// already ends in `/v1`, and `/models` on the base itself comes last.
pub fn build_models_urls(base_url: &str) -> (urls: Vec<String>)
    ensures
        urls.deep_view() == candidate_urls(base_url@),
        urls.len() == candidate_urls(base_url@).len(),
        forall|i: int| 0 <= i < urls.len() ==> (#[trigger] urls[i])@ == candidate_urls(base_url@)[i],
{
    let root = normalize_base_url(base_url);
    let mut urls: Vec<String> = Vec::new();
    if root.len() == 0 {
        assert(urls.deep_view() =~= candidate_urls(base_url@));
        return urls;
    }
    let models = chars_of("/models");
    let v1 = chars_of("/v1");
    if chars_end_with(&root, &models) {
        urls.push(string_of(&root));
        assert(urls.deep_view() =~= candidate_urls(base_url@));
        return urls;
    }
    if !chars_end_with(&root, &v1) {
        urls.push(join(&root, "/v1/models"));
    }
    urls.push(join(&root, "/models"));
    assert(urls.deep_view() =~= candidate_urls(base_url@));
    urls
}

/// A suffix that neither begins nor ends with whitespace, and does not end
/// with `/`, survives normalization: only leading whitespace is removed.
pub proof fn lemma_normalization_keeps_suffix(base: Seq<char>, suffix: Seq<char>)
    requires
        suffix.len() > 0,
        !is_whitespace(suffix[0]),
        !is_whitespace(suffix.last()),
        suffix.last() != '/',
        ends_with(base, suffix),
    ensures
        normalized_base_url(base) == trim_start(base),
        ends_with(normalized_base_url(base), suffix),
        normalized_base_url(base).len() > 0,
{
    lemma_trim_start_is_skip(base);
    let k = leading_whitespace(base) as int;
    let cut = base.len() - suffix.len();
    assert(base.skip(cut)[0] == base[cut]);
    assert(base.skip(cut)[suffix.len() - 1] == base[base.len() - 1]);
    assert(k <= cut) by {
        if k > cut {
            assert(is_whitespace(base[cut]));
        }
    }
    let kept = base.skip(k);
    assert(kept.last() == base.last());
    assert(kept.skip(kept.len() - suffix.len()) =~= base.skip(cut));
}

/// A base URL that ends in `/models` yields that one endpoint, changed only
/// by the removal of leading whitespace.
pub proof fn lemma_models_endpoint_is_kept(base: Seq<char>)
    requires
        ends_with(base, "/models"@),
    ensures
        candidate_urls(base) == seq![trim_start(base)],
{
    reveal_strlit("/models");
    lemma_normalization_keeps_suffix(base, "/models"@);
}

/// A base URL that ends in `/v1` yields exactly the endpoint `/models`
/// under it.
pub proof fn lemma_v1_base_has_one_candidate(base: Seq<char>)
    requires
        ends_with(base, "/v1"@),
    ensures
        candidate_urls(base) == seq![trim_start(base) + "/models"@],
{
    reveal_strlit("/v1");
    reveal_strlit("/models");
    lemma_normalization_keeps_suffix(base, "/v1"@);
    let root = normalized_base_url(base);
    assert(!ends_with(root, "/models"@)) by {
        if ends_with(root, "/models"@) {
            assert(root.skip(root.len() - 7)[6] == root.last());
            assert(root.skip(root.len() - 3)[2] == root.last());
        }
    }
}

/// A base URL whose normal form is not empty and ends neither in `/v1` nor
/// in `/models` yields two endpoints: `/v1/models` first, then `/models`.
pub proof fn lemma_plain_base_has_two_candidates(base: Seq<char>)
    requires
        normalized_base_url(base).len() > 0,
        !ends_with(normalized_base_url(base), "/v1"@),
        !ends_with(normalized_base_url(base), "/models"@),
    ensures
        candidate_urls(base) == seq![
            normalized_base_url(base) + "/v1/models"@,
            normalized_base_url(base) + "/models"@,
        ],
{
}

/// No endpoint is listed twice, and there are at most two.
pub proof fn lemma_candidates_are_distinct(base: Seq<char>)
    ensures
        candidate_urls(base).len() <= 2,
        candidate_urls(base).no_duplicates(),
{
    reveal_strlit("/v1/models");
    reveal_strlit("/models");
    let root = normalized_base_url(base);
    assert((root + "/v1/models"@).len() != (root + "/models"@).len());
}

} // verus!
