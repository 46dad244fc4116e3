//! The pure part of the tool-dispatch server: holding the package
//! directory and resolving a package name to the file it denotes.
//!
//! Reading the request stream, dispatching, and checking the resolved
//! file on disk are front-end work outside this crate.

use vstd::prelude::*;

verus! {

/// One colon-to-underscore substitution over a package name.
pub open spec fn underscored(s: Seq<char>) -> Seq<char> {
    s.map_values(
        |c: char|
            if c == ':' {
                '_'
            } else {
                c
            },
    )
}

/// Rewrites every colon of a package name to an underscore.
fn replace_colons(s: &str) -> (r: String)
    ensures
        r@ == underscored(s@),
{
    let len = s.unicode_len();
    let mut r = String::new();
    let mut p: usize = 0;
    let mut i: usize = 0;
    proof {
        assert(r@ =~= underscored(s@.take(0)));
    }
    while i < len
        invariant
            p <= i <= len,
            len == s@.len(),
            r@ == underscored(s@.take(p as int)),
            forall|k: int| p <= k < i ==> s@[k] != ':',
        decreases len - i,
    {
        let c = s.get_char(i);
        if c == ':' {
            let chunk = s.substring_char(p, i);
            let r2 = r.concat(chunk).concat("_");
            proof {
                reveal_strlit("_");
                assert(r2@ =~= underscored(s@.take(i + 1)));
            }
            r = r2;
            p = i + 1;
        }
        i = i + 1;
    }
    let tail = s.substring_char(p, len);
    let r3 = r.concat(tail);
    proof {
        assert(s@.take(len as int) =~= s@);
        assert(r3@ =~= underscored(s@));
    }
    r3
}

/// The tool-dispatch server: it serves the packages installed under
/// one directory.
#[derive(Debug, Clone, PartialEq, Eq)]
pub struct McpServer {
    pub packages_dir: String,
}

impl McpServer {
    /// A server over the given package directory.
    pub fn new(packages_dir: String) -> (r: Self)
        ensures
            r.packages_dir@ == packages_dir@,
    {
        McpServer { packages_dir }
    }

    /// The file a package name denotes: colons become underscores, the
    /// docpack extension is appended, and the result lives under the
    /// package directory.  Whether that file exists is the front end's
    /// question.
    pub fn resolve_package_path(&self, package: &str) -> (r: String)
        ensures
            r@ == self.packages_dir@ + "/"@ + underscored(package@) + ".docpack"@,
    {
        let name = replace_colons(package);
        let r = self.packages_dir.clone().concat("/").concat(name.as_str()).concat(".docpack");
        proof {
            assert(r@ =~= self.packages_dir@ + "/"@ + underscored(package@) + ".docpack"@);
        }
        r
    }
}

} // verus!
