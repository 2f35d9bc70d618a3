//! Where an archived page lands on disk: a per-domain tree under
//! `downloaded/`, with each page body written as an `index.html` inside
//! its path's directory. Only the paths are computed here; writing them
//! is the caller's affair.

use vstd::prelude::*;

verus! {

/// The directory an archived page's body is written into.
pub open spec fn spec_archive_dir(domain: Seq<char>, subpath: Seq<char>) -> Seq<char> {
    "downloaded/"@ + domain + seq!['/'] + subpath
}

/// The file an archived page's body is written to: `index.html` in the
/// page's directory, or directly under the domain when the path is empty.
pub open spec fn spec_archive_file(domain: Seq<char>, subpath: Seq<char>) -> Seq<char> {
    if subpath.len() == 0 {
        "downloaded/"@ + domain + seq!['/'] + "index.html"@
    } else {
        spec_archive_dir(domain, subpath) + seq!['/'] + "index.html"@
    }
}

/// The directory to create and the file to write for one archived page.
pub fn archive_paths(domain: &str, subpath: &str) -> (r: (String, String))
    ensures
        r.0@ == spec_archive_dir(domain@, subpath@),
        r.1@ == spec_archive_file(domain@, subpath@),
{
    proof {
        reveal_strlit("downloaded/");
        reveal_strlit("/");
        reveal_strlit("index.html");
        assert("/"@ =~= seq!['/']);
    }
    let mut dir = String::from_str("downloaded/");
    dir.append(domain);
    dir.append("/");
    dir.append(subpath);
    let mut file: String = if subpath.is_empty() {
        let mut f = String::from_str("downloaded/");
        f.append(domain);
        f.append("/");
        f
    } else {
        let mut f = dir.clone();
        f.append("/");
        f
    };
    file.append("index.html");
    proof {
        assert(dir@ =~= spec_archive_dir(domain@, subpath@));
        if subpath@.len() == 0 {
            assert(file@ =~= spec_archive_file(domain@, subpath@));
        } else {
            assert(file@ =~= spec_archive_file(domain@, subpath@));
        }
    }
    (dir, file)
}

} // verus!
