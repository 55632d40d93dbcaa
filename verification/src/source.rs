//! The source of a package, as Cargo writes it (`registry+<url>`,
//! `git+<url>?<query>#<revision>`, ...), and its reduction to the name of a
//! `[patch]` section.

use vstd::prelude::*;
use crate::text::{
    before_char, before_char_len, chars_eq, chars_of, contains_chars, contains_seq, first_index,
    is_first_index, lemma_first_index_unique, string_of,
};

verus! {

/// The name of the `[patch]` section for a source given by its text.
///
/// `registry+<url>` gives `crates-io` when the URL names the crates.io
/// index, else the URL; `git+<url>` gives the URL without its query and
/// fragment; any other text gives nothing.
pub open spec fn spec_sanitize(repr: Seq<char>) -> Option<Seq<char>> {
    if exists|k: int| is_first_index(repr, '+', k) {
        let k = choose|k: int| is_first_index(repr, '+', k);
        let prefix = repr.take(k);
        let rest = repr.skip(k + 1);
        if prefix == "registry"@ {
            if contains_seq(rest, "crates.io-index"@) {
                Some("crates-io"@)
            } else {
                Some(rest)
            }
        } else if prefix == "git"@ {
            Some(before_char(before_char(rest, '#'), '?'))
        } else {
            None
        }
    } else {
        None
    }
}

/// Source of a package, given by its text.
pub struct Source<'s>(pub &'s str);

impl<'s> Source<'s> {
    /// Sanitize: the name of the `[patch]` section that overrides packages
    /// of this source, if the source is a registry or a git repository.
    pub fn sanitize(&self) -> (r: Option<String>)
        ensures
            match r {
                Some(s) => spec_sanitize(self.0@) == Some(s@),
                None => spec_sanitize(self.0@) is None,
            },
    {
        let cs = chars_of(self.0);
        let k = match first_index(&cs, '+') {
            Some(k) => k,
            None => {
                return None;
            },
        };
        proof {
            let k2 = choose|k2: int| is_first_index(cs@, '+', k2);
            lemma_first_index_unique(cs@, '+', k as int, k2);
        }
        let n = cs.len();
        let prefix = &cs[0..k];
        let rest = &cs[k + 1..n];
        assert(prefix@ == cs@.take(k as int));
        assert(rest@ == cs@.skip(k + 1));
        let registry = chars_of("registry");
        let git = chars_of("git");
        if chars_eq(prefix, &registry) {
            let index = chars_of("crates.io-index");
            if contains_chars(rest, &index) {
                Some(String::from_str("crates-io"))
            } else {
                Some(string_of(rest, 0, rest.len()))
            }
        } else if chars_eq(prefix, &git) {
            let before_fragment = before_char_len(rest, '#');
            let head = &rest[0..before_fragment];
            let bare = before_char_len(head, '?');
            assert(head@ == before_char(rest@, '#'));
            Some(string_of(head, 0, bare))
        } else {
            None
        }
    }
}


/// The text of a source is split at its first `+`: whatever follows the
/// kind `kind` is the rest, when `kind` holds no `+`.
proof fn lemma_split_at_plus(kind: Seq<char>, rest: Seq<char>)
    requires
        forall|j: int| 0 <= j < kind.len() ==> kind[j] != '+',
    ensures
        is_first_index(kind + seq!['+'] + rest, '+', kind.len() as int),
        (kind + seq!['+'] + rest).take(kind.len() as int) == kind,
        (kind + seq!['+'] + rest).skip(kind.len() as int + 1) == rest,
{
    let s = kind + seq!['+'] + rest;
    assert(s.take(kind.len() as int) =~= kind);
    assert(s.skip(kind.len() as int + 1) =~= rest);
}

/// Any package of a registry whose index is that of crates.io is
/// overridden in the `crates-io` section.
pub proof fn lemma_crates_io_registry(url: Seq<char>)
    requires
        contains_seq(url, "crates.io-index"@),
    ensures
        spec_sanitize("registry"@ + seq!['+'] + url) == Some("crates-io"@),
{
    reveal_strlit("registry");
    let kind = "registry"@;
    lemma_split_at_plus(kind, url);
    let s = kind + seq!['+'] + url;
    let k = choose|k: int| is_first_index(s, '+', k);
    lemma_first_index_unique(s, '+', k, kind.len() as int);
}

/// Any package of another registry is overridden in a section named by the
/// URL of the registry.
pub proof fn lemma_other_registry(url: Seq<char>)
    requires
        !contains_seq(url, "crates.io-index"@),
    ensures
        spec_sanitize("registry"@ + seq!['+'] + url) == Some(url),
{
    reveal_strlit("registry");
    let kind = "registry"@;
    lemma_split_at_plus(kind, url);
    let s = kind + seq!['+'] + url;
    let k = choose|k: int| is_first_index(s, '+', k);
    lemma_first_index_unique(s, '+', k, kind.len() as int);
}

/// Any package of a git repository is overridden in a section named by the
/// URL of the repository, without its revision (`#...`) and query (`?...`).
pub proof fn lemma_git_repository(url: Seq<char>)
    ensures
        spec_sanitize("git"@ + seq!['+'] + url) == Some(before_char(before_char(url, '#'), '?')),
{
    reveal_strlit("git");
    reveal_strlit("registry");
    let kind = "git"@;
    lemma_split_at_plus(kind, url);
    let s = kind + seq!['+'] + url;
    let k = choose|k: int| is_first_index(s, '+', k);
    lemma_first_index_unique(s, '+', k, kind.len() as int);
    assert(kind.len() != "registry"@.len());
}

/// A git URL without revision or query names its section as it stands.
pub proof fn lemma_plain_git_url(url: Seq<char>)
    requires
        !url.contains('#'),
        !url.contains('?'),
    ensures
        spec_sanitize("git"@ + seq!['+'] + url) == Some(url),
{
    lemma_git_repository(url);
    assert(!exists|k: int| is_first_index(url, '#', k)) by {
        if exists|k: int| is_first_index(url, '#', k) {
            let k = choose|k: int| is_first_index(url, '#', k);
            assert(url[k] == '#');
        }
    }
    assert(!exists|k: int| is_first_index(url, '?', k)) by {
        if exists|k: int| is_first_index(url, '?', k) {
            let k = choose|k: int| is_first_index(url, '?', k);
            assert(url[k] == '?');
        }
    }
}

/// A source of any kind other than `registry` and `git` (such as `path`
/// or `sparse`) names no section, whatever follows its `+`.
pub proof fn lemma_other_kinds_name_no_section(kind: Seq<char>, rest: Seq<char>)
    requires
        forall|j: int| 0 <= j < kind.len() ==> kind[j] != '+',
        kind != "registry"@,
        kind != "git"@,
    ensures
        spec_sanitize(kind + seq!['+'] + rest) is None,
{
    lemma_split_at_plus(kind, rest);
    let s = kind + seq!['+'] + rest;
    let k = choose|k: int| is_first_index(s, '+', k);
    lemma_first_index_unique(s, '+', k, kind.len() as int);
}

/// A text without `+` names no section.
pub proof fn lemma_no_kind(repr: Seq<char>)
    requires
        !repr.contains('+'),
    ensures
        spec_sanitize(repr) is None,
{
    if exists|k: int| is_first_index(repr, '+', k) {
        let k = choose|k: int| is_first_index(repr, '+', k);
        assert(repr[k] == '+');
    }
}

} // verus!
