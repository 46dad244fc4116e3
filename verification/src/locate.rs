//! Resolution of user-supplied package locations: bare names against
//! the standard package directory, and repository URLs against their
//! archive download location.

use vstd::prelude::*;

use crate::seqext::lemma_filter_push;

verus! {

/// Whether a prefix matches the start of a string.
pub open spec fn spec_starts_with(s: Seq<char>, p: Seq<char>) -> bool {
    p.len() <= s.len() && s.subrange(0, p.len() as int) == p
}

/// Tests whether a string starts with the given prefix.
fn str_starts_with(s: &str, p: &str) -> (r: bool)
    ensures
        r == spec_starts_with(s@, p@),
{
    let sl = s.unicode_len();
    let pl = p.unicode_len();
    if pl > sl {
        return false;
    }
    for i in 0..pl
        invariant
            sl == s@.len(),
            pl == p@.len(),
            pl <= sl,
            forall|k: int| 0 <= k < i ==> s@[k] == p@[k],
    {
        if s.get_char(i) != p.get_char(i) {
            proof {
                assert(s@.subrange(0, p@.len() as int)[i as int] != p@[i as int]);
            }
            return false;
        }
    }
    proof {
        assert(s@.subrange(0, p@.len() as int) =~= p@);
    }
    true
}

/// Whether a character occurs in the string.
pub open spec fn spec_has_char(s: Seq<char>, c: char) -> bool {
    exists|i: int| 0 <= i < s.len() && s[i] == c
}

/// Tests whether a character occurs in the string.
fn str_has_char(s: &str, c: char) -> (r: bool)
    ensures
        r == spec_has_char(s@, c),
{
    let n = s.unicode_len();
    for i in 0..n
        invariant
            n == s@.len(),
            forall|k: int| 0 <= k < i ==> s@[k] != c,
    {
        if s.get_char(i) == c {
            return true;
        }
    }
    false
}

/// Whether a name carries an extension: a dot anywhere after its first
/// character.
pub open spec fn spec_has_extension(s: Seq<char>) -> bool {
    exists|i: int| 1 <= i < s.len() && s[i] == '.'
}

fn has_extension(s: &str) -> (r: bool)
    ensures
        r == spec_has_extension(s@),
{
    let n = s.unicode_len();
    if n == 0 {
        return false;
    }
    for i in 1..n
        invariant
            n == s@.len(),
            forall|k: int| 1 <= k < i ==> s@[k] != '.',
    {
        if s.get_char(i) == '.' {
            return true;
        }
    }
    false
}

/// Where a user-supplied package location resolves to: anything
/// carrying a path separator is taken as given; a bare name is looked
/// up in the package directory, gaining the docpack extension when it
/// has none of its own.
pub open spec fn spec_resolved_path(input: Seq<char>, docpacks_dir: Seq<char>) -> Seq<char> {
    if spec_has_char(input, '/') || spec_has_char(input, '\\') {
        input
    } else {
        let joined = docpacks_dir + "/"@ + input;
        if spec_has_extension(input) {
            joined
        } else {
            joined + ".docpack"@
        }
    }
}

/// Resolves a user-supplied package location against the standard
/// package directory.
pub fn resolve_docpack_path(input: &str, docpacks_dir: &str) -> (r: String)
    ensures
        r@ == spec_resolved_path(input@, docpacks_dir@),
{
    if str_has_char(input, '/') || str_has_char(input, '\\') {
        return input.to_owned();
    }
    let joined = docpacks_dir.to_owned().concat("/").concat(input);
    if has_extension(input) {
        joined
    } else {
        joined.concat(".docpack")
    }
}

/// Whether the input denotes a repository URL on the public code host.
pub open spec fn spec_is_github_url(s: Seq<char>) -> bool {
    spec_starts_with(s, "http://github.com/"@) || spec_starts_with(s, "https://github.com/"@)
        || spec_starts_with(s, "http://www.github.com/"@) || spec_starts_with(
        s,
        "https://www.github.com/"@,
    )
}

/// Tests whether the input is a repository URL rather than a local
/// archive path.
pub fn is_github_url(input: &str) -> (r: bool)
    ensures
        r == spec_is_github_url(input@),
{
    str_starts_with(input, "http://github.com/") || str_starts_with(input, "https://github.com/")
        || str_starts_with(input, "http://www.github.com/") || str_starts_with(
        input,
        "https://www.github.com/",
    )
}

/// The URL with its trailing slashes removed.
pub open spec fn spec_trimmed(s: Seq<char>) -> Seq<char>
    decreases s.len(),
{
    if s.len() > 0 && s.last() == '/' {
        spec_trimmed(s.drop_last())
    } else {
        s
    }
}

/// How many slashes the sequence holds.
pub open spec fn slash_count(s: Seq<char>) -> nat {
    s.filter(|c: char| c == '/').len()
}

/// The position of the last slash.
pub open spec fn spec_last_slash(s: Seq<char>) -> int
    decreases s.len(),
{
    if s.len() == 0 {
        -1
    } else if s.last() == '/' {
        s.len() - 1
    } else {
        spec_last_slash(s.drop_last())
    }
}

/// The repository segment of a trimmed URL: everything after the last
/// slash.
pub open spec fn spec_repo_of(t: Seq<char>) -> Seq<char> {
    t.subrange(spec_last_slash(t) + 1, t.len() as int)
}

/// The owner segment of a trimmed URL: everything between the last two
/// slashes.
pub open spec fn spec_owner_of(t: Seq<char>) -> Seq<char> {
    let head = t.take(spec_last_slash(t));
    head.subrange(spec_last_slash(head) + 1, head.len() as int)
}

/// The archive URL a repository URL downloads as: the default branch
/// archive for the owner and repository named by the last two URL
/// segments.
pub open spec fn spec_archive_url(t: Seq<char>) -> Seq<char> {
    "https://github.com/"@ + spec_owner_of(t) + "/"@ + spec_repo_of(t)
        + "/archive/refs/heads/main.zip"@
}

/// A last slash stays within bounds.
proof fn lemma_last_slash_range(s: Seq<char>)
    ensures
        -1 <= spec_last_slash(s) < s.len(),
        spec_last_slash(s) >= 0 ==> s[spec_last_slash(s)] == '/',
        forall|k: int| spec_last_slash(s) < k < s.len() ==> s[k] != '/',
    decreases s.len(),
{
    if s.len() > 0 && s.last() != '/' {
        lemma_last_slash_range(s.drop_last());
        assert forall|k: int| spec_last_slash(s) < k < s.len() implies s[k] != '/' by {
            if k < s.len() - 1 {
                assert(s.drop_last()[k] == s[k]);
            }
        }
        if spec_last_slash(s) >= 0 {
            assert(s.drop_last()[spec_last_slash(s)] == s[spec_last_slash(s)]);
        }
    }
}

/// A sequence without slashes counts none; one with a slash has a last
/// one.
proof fn lemma_slash_count_last(s: Seq<char>)
    ensures
        slash_count(s) >= 1 <==> spec_last_slash(s) >= 0,
    decreases s.len(),
{
    reveal(Seq::filter);
    if s.len() > 0 {
        lemma_slash_count_last(s.drop_last());
    }
}

/// Finds the last slash strictly before position `from`.
fn find_last_slash_before(url: &str, from: usize, Ghost(t): Ghost<Seq<char>>) -> (r: usize)
    requires
        t == url@.take(from as int),
        from <= url@.len(),
        slash_count(t) >= 1,
    ensures
        r < from,
        r == spec_last_slash(t),
{
    let mut j = from;
    loop
        invariant
            j <= from <= url@.len(),
            t == url@.take(from as int),
            slash_count(t) >= 1,
            spec_last_slash(t) == spec_last_slash(url@.take(j as int)),
            slash_count(url@.take(j as int)) >= 1,
        decreases j,
    {
        proof {
            lemma_slash_count_last(url@.take(j as int));
        }
        if j == 0 {
            proof {
                assert(url@.take(0) =~= Seq::<char>::empty());
                reveal(Seq::filter);
                assert(false);
            }
        }
        let c = url.get_char(j - 1);
        proof {
            assert(url@.take(j as int).last() == url@[j - 1]);
            assert(url@.take(j as int).drop_last() =~= url@.take(j - 1));
            lemma_filter_push(url@.take(j - 1), url@[j - 1], |c2: char| c2 == '/');
            assert(url@.take(j as int) =~= url@.take(j - 1).push(url@[j - 1]));
        }
        if c == '/' {
            return j - 1;
        }
        j = j - 1;
    }
}

/// Parses a repository URL into the archive URL of its default branch.
/// After trailing slashes are dropped, the URL must still have at
/// least five slash-separated segments (scheme, empty, host, owner,
/// repository); anything shorter is rejected with a message, and
/// anything longer takes its owner and repository from the last two
/// segments.
pub fn parse_github_url(url: &str) -> (r: Result<String, String>)
    ensures
        match r {
            Result::Ok(u) => slash_count(spec_trimmed(url@)) >= 4 && u@ == spec_archive_url(
                spec_trimmed(url@),
            ),
            Result::Err(e) => slash_count(spec_trimmed(url@)) < 4 && e@
                == "Invalid GitHub URL format. Expected: https://github.com/owner/repo"@,
        },
{
    let len = url.unicode_len();
    // drop trailing slashes
    let mut e: usize = len;
    proof {
        assert(url@.take(len as int) =~= url@);
    }
    loop
        invariant_except_break
            e <= len,
            len == url@.len(),
            spec_trimmed(url@) == spec_trimmed(url@.take(e as int)),
        ensures
            e <= len,
            len == url@.len(),
            spec_trimmed(url@) == url@.take(e as int),
        decreases e,
    {
        if e == 0 {
            proof {
                assert(url@.take(0) =~= Seq::<char>::empty());
            }
            break ;
        }
        let c = url.get_char(e - 1);
        proof {
            assert(url@.take(e as int).last() == url@[e - 1]);
            assert(url@.take(e as int).drop_last() =~= url@.take(e - 1));
        }
        if c != '/' {
            break ;
        }
        e = e - 1;
    }
    let ghost t = url@.take(e as int);
    // count the slashes of the trimmed prefix
    let mut slashes: usize = 0;
    proof {
        assert(url@.take(0) =~= Seq::<char>::empty());
        reveal(Seq::filter);
    }
    for i in 0..e
        invariant
            e <= url@.len(),
            slashes == slash_count(url@.take(i as int)),
            slashes <= i,
        decreases e - i,
    {
        proof {
            assert(url@.take(i + 1) =~= url@.take(i as int).push(url@[i as int]));
            lemma_filter_push(url@.take(i as int), url@[i as int], |c2: char| c2 == '/');
        }
        if url.get_char(i) == '/' {
            slashes = slashes + 1;
        }
    }
    if slashes < 4 {
        return Result::Err(
            "Invalid GitHub URL format. Expected: https://github.com/owner/repo".to_owned(),
        );
    }
    // the repository segment: after the last slash
    let ls = find_last_slash_before(url, e, Ghost(t));
    let repo = url.substring_char(ls + 1, e);
    proof {
        assert(repo@ =~= spec_repo_of(t));
    }
    // the owner segment: between the last two slashes
    let ghost head = t.take(spec_last_slash(t));
    proof {
        assert(head =~= url@.take(ls as int));
        lemma_last_slash_range(t);
        assert(t[ls as int] == '/');
        assert(slash_count(head) >= 1) by {
            let rest = t.subrange(ls + 1, t.len() as int);
            assert(t =~= t.take(ls + 1) + rest);
            Seq::<char>::filter_distributes_over_add(t.take(ls + 1), rest, |c2: char| c2 == '/');
            crate::seqext::lemma_filter_none(rest, |c2: char| c2 == '/');
            assert(slash_count(t.take(ls + 1)) == slash_count(t));
            lemma_slash_count_sub(t, ls as int);
            assert(t.take(ls as int) == head);
        }
    }
    let ls2 = find_last_slash_before(url, ls, Ghost(head));
    let owner = url.substring_char(ls2 + 1, ls);
    proof {
        assert(owner@ =~= spec_owner_of(t));
    }
    let u = String::from_str("https://github.com/").concat(owner).concat("/").concat(repo).concat(
        "/archive/refs/heads/main.zip",
    );
    proof {
        assert(u@ =~= spec_archive_url(t));
    }
    Result::Ok(u)
}

/// A prefix ending right on a slash counts exactly one slash more than
/// the prefix without it.
proof fn lemma_slash_count_sub(s: Seq<char>, i: int)
    requires
        0 <= i < s.len(),
        s[i] == '/',
    ensures
        slash_count(s.take(i + 1)) == slash_count(s.take(i)) + 1,
{
    assert(s.take(i + 1) =~= s.take(i).push(s[i]));
    lemma_filter_push(s.take(i), s[i], |c2: char| c2 == '/');
}

} // verus!
