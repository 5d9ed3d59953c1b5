//! What a list entry says about its story besides the title: the site the
//! story links to, and the words that go with its score and its comments.

use crate::types::text_view;
use crate::wire::text_or_empty;
use vstd::prelude::*;

verus! {

/// `s` without every leading repetition of `prefix`.
pub open spec fn trimmed_start(s: Seq<char>, prefix: Seq<char>) -> Seq<char>
    decreases s.len(),
{
    if prefix.len() > 0 && prefix.is_prefix_of(s) {
        trimmed_start(s.skip(prefix.len() as int), prefix)
    } else {
        s
    }
}

/// The site that a list entry names for a story with the link `url`: the
/// link without its scheme and without a leading `www.`, or `google.com`
/// where nothing is left.
pub open spec fn site_of(url: Option<Seq<char>>) -> Seq<char> {
    let shown = trimmed_start(
        trimmed_start(trimmed_start(text_or_empty(url), "https://"@), "http://"@),
        "www."@,
    );
    if shown.len() == 0 {
        "google.com"@
    } else {
        shown
    }
}

/// The word that follows a score.
pub open spec fn score_unit_of(score: i64) -> Seq<char> {
    if score == 1 {
        " point"@
    } else {
        " points"@
    }
}

/// The word that follows a number of comments.
pub open spec fn comments_unit_of(count: nat) -> Seq<char> {
    if count == 1 {
        " comment"@
    } else {
        " comments"@
    }
}

/// Tells whether `prefix` stands in `s` at the character position `from`.
fn starts_with_at(s: &str, len: usize, from: usize, prefix: &str, prefix_len: usize) -> (b: bool)
    requires
        len == s@.len(),
        prefix_len == prefix@.len(),
        from <= len,
    ensures
        b == prefix@.is_prefix_of(s@.skip(from as int)),
{
    if prefix_len > len - from {
        return false;
    }
    let mut i: usize = 0;
    while i < prefix_len
        invariant
            len == s@.len(),
            prefix_len == prefix@.len(),
            from <= len,
            prefix_len <= len - from,
            i <= prefix_len,
            forall|j: int| 0 <= j < i ==> prefix@[j] == s@[from + j],
        decreases prefix_len - i,
    {
        if s.get_char(from + i) != prefix.get_char(i) {
            assert(s@.skip(from as int).subrange(0, prefix_len as int)[i as int]
                != prefix@[i as int]);
            return false;
        }
        i = i + 1;
    }
    assert(prefix@ =~= s@.skip(from as int).subrange(0, prefix_len as int));
    true
}

/// The position in `s` after every repetition of `prefix` that starts at
/// `from`.
fn skip_repeated(s: &str, len: usize, from: usize, prefix: &str) -> (to: usize)
    requires
        len == s@.len(),
        from <= len,
    ensures
        from <= to <= len,
        s@.skip(to as int) == trimmed_start(s@.skip(from as int), prefix@),
{
    let prefix_len = prefix.unicode_len();
    if prefix_len == 0 {
        return from;
    }
    let mut at = from;
    while starts_with_at(s, len, at, prefix, prefix_len)
        invariant
            len == s@.len(),
            prefix_len == prefix@.len(),
            prefix_len > 0,
            from <= at <= len,
            trimmed_start(s@.skip(at as int), prefix@) == trimmed_start(
                s@.skip(from as int),
                prefix@,
            ),
        decreases len - at,
    {
        assert(s@.skip(at as int).skip(prefix_len as int) =~= s@.skip(at + prefix_len));
        at = at + prefix_len;
    }
    at
}

/// The site that a list entry names for a story with the link `url`.
pub fn site_label(url: &Option<String>) -> (site: String)
    ensures
        site@ == site_of(text_view(*url)),
{
    let link: &str = match url {
        Some(u) => u.as_str(),
        None => "",
    };
    proof {
        reveal_strlit("");
        assert(link@ =~= text_or_empty(text_view(*url)));
    }
    let len = link.unicode_len();
    assert(link@.skip(0) =~= link@);
    let after_https = skip_repeated(link, len, 0, "https://");
    let after_http = skip_repeated(link, len, after_https, "http://");
    let start = skip_repeated(link, len, after_http, "www.");
    if start == len {
        String::from_str("google.com")
    } else {
        let shown = link.substring_char(start, len);
        assert(shown@ =~= link@.skip(start as int));
        String::from_str(shown)
    }
}

/// The word that follows the score in a list entry: singular for one point.
pub fn score_unit(score: i64) -> (unit: &'static str)
    ensures
        unit@ == score_unit_of(score),
{
    if score == 1 {
        " point"
    } else {
        " points"
    }
}

/// The word that follows the number of comments in a list entry: singular
/// for one comment.
pub fn comments_unit(count: usize) -> (unit: &'static str)
    ensures
        unit@ == comments_unit_of(count as nat),
{
    if count == 1 {
        " comment"
    } else {
        " comments"
    }
}

} // verus!
