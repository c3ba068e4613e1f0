//! File ownership matching: scan the cached per-package file lists and
//! report every (package record, installed path) pair whose recorded path
//! ends with the queried file name as a whole path segment.
//!
//! The caller walks the cache tree and hands over, per package directory,
//! the repository name, the directory name and the contents of the
//! description and file-list files; matching itself is pure.

use vstd::prelude::*;
use crate::record::{parse_package_record, spec_record, Pkg, PkgV};
use crate::text::{chars_vec, spec_lines, spec_trim, split_lines, string_from_chars, trim_chars};

verus! {

/// A header line of a file list, `%FILES%` and the like.
pub open spec fn spec_line_is_header(l: Seq<char>) -> bool {
    l.len() > 0 && l[0] == '%'
}

/// The ownership test: the recorded path ends with a separator followed
/// by the queried name, so the query matches a whole final path segment.
pub open spec fn spec_line_matches(line: Seq<char>, query: Seq<char>) -> bool {
    line.len() > query.len() && line.skip(line.len() - query.len() - 1) == seq!['/'] + query
}

/// Whether a raw file-list line yields a result: header lines and blank
/// lines are passed over, every other line is kept when the ownership
/// test holds of it.
pub open spec fn spec_line_selected(line: Seq<char>, query: Seq<char>) -> bool {
    !spec_line_is_header(line) && spec_trim(line).len() != 0 && spec_line_matches(line, query)
}

/// The selected lines of a file list, in order.
pub open spec fn spec_match_lines(lines: Seq<Seq<char>>, query: Seq<char>) -> Seq<Seq<char>>
    decreases lines.len(),
{
    if lines.len() == 0 {
        Seq::empty()
    } else {
        spec_match_lines(lines.drop_last(), query) + if spec_line_selected(lines.last(), query) {
            seq![lines.last()]
        } else {
            Seq::<Seq<char>>::empty()
        }
    }
}

fn ends_with_segment(line: &Vec<char>, query: &Vec<char>) -> (r: bool)
    ensures
        r == spec_line_matches(line@, query@),
{
    if line.len() <= query.len() {
        return false;
    }
    let start = line.len() - query.len() - 1;
    if line[start] != '/' {
        proof {
            assert((seq!['/'] + query@)[0] == '/');
            assert(line@.skip(start as int)[0] == line@[start as int]);
        }
        return false;
    }
    let mut k: usize = 0;
    while k < query.len()
        invariant
            0 <= k <= query@.len(),
            line@.len() <= usize::MAX,
            line@.len() > query@.len(),
            start == line@.len() - query@.len() - 1,
            line@[start as int] == '/',
            forall|m: int| 0 <= m < k ==> line@[start + 1 + m] == query@[m],
        decreases query@.len() - k,
    {
        if line[start + 1 + k] != query[k] {
            proof {
                assert((seq!['/'] + query@)[k + 1] == query@[k as int]);
                assert(line@.skip(start as int)[k + 1] == line@[start + 1 + k]);
            }
            return false;
        }
        k = k + 1;
    }
    proof {
        assert(line@.skip(start as int) =~= seq!['/'] + query@);
    }
    true
}

/// The file-list lines whose recorded path the queried name matches, in
/// the order the list gives them; a package may yield several.
pub fn match_file_lines(files_content: &str, query: &str) -> (r: Vec<String>)
    ensures
        r@.len() == spec_match_lines(spec_lines(files_content@), query@).len(),
        forall|k: int|
            0 <= k < r@.len() ==> r@[k]@ == spec_match_lines(
                spec_lines(files_content@),
                query@,
            )[k],
{
    let cs = chars_vec(files_content);
    let lines = split_lines(&cs);
    let qc = chars_vec(query);
    let ghost ls = spec_lines(files_content@);
    let mut r: Vec<String> = Vec::new();
    let mut j: usize = 0;
    while j < lines.len()
        invariant
            0 <= j <= lines@.len(),
            lines@.len() == ls.len(),
            forall|k: int| 0 <= k < lines@.len() ==> lines@[k]@ == ls[k],
            qc@ == query@,
            r@.len() == spec_match_lines(ls.take(j as int), query@).len(),
            forall|k: int|
                0 <= k < r@.len() ==> r@[k]@ == spec_match_lines(ls.take(j as int), query@)[k],
        decreases lines@.len() - j,
    {
        proof {
            assert(ls.take(j + 1).drop_last() =~= ls.take(j as int));
            assert(ls.take(j + 1).last() == ls[j as int]);
        }
        let line = &lines[j];
        let is_header = line.len() > 0 && line[0] == '%';
        if !is_header {
            let t = trim_chars(line);
            if t.len() > 0 && ends_with_segment(line, &qc) {
                r.push(string_from_chars(line));
            }
        }
        j = j + 1;
    }
    proof {
        assert(ls.take(ls.len() as int) =~= ls);
    }
    r
}

/// What the cache tree holds of one package directory: the repository it
/// belongs to, the directory's name, and the contents of its description
/// and file-list files where those exist.
pub struct PackageListing {
    pub db_name: String,
    pub dir_name: String,
    pub desc: Option<String>,
    pub files: Option<String>,
}

/// One ownership result: the owning package's record and the full
/// recorded path that matched.
pub struct OwnerMatch {
    pub pkg: Pkg,
    pub path: String,
}

/// Mathematical image of an `OwnerMatch`.
pub struct OwnerMatchV {
    pub pkg: PkgV,
    pub path: Seq<char>,
}

impl View for OwnerMatch {
    type V = OwnerMatchV;

    open spec fn view(&self) -> OwnerMatchV {
        OwnerMatchV { pkg: self.pkg@, path: self.path@ }
    }
}

/// The description contents a listing carries, as a sequence option.
pub open spec fn spec_desc_of(l: PackageListing) -> Option<Seq<char>> {
    match l.desc {
        Some(d) => Some(d@),
        None => None,
    }
}

/// Each matched path tagged with the owning package's record.
pub open spec fn spec_tag_all(p: PkgV, paths: Seq<Seq<char>>) -> Seq<OwnerMatchV>
    decreases paths.len(),
{
    if paths.len() == 0 {
        Seq::empty()
    } else {
        spec_tag_all(p, paths.drop_last()).push(OwnerMatchV { pkg: p, path: paths.last() })
    }
}

pub proof fn lemma_tag_all(p: PkgV, paths: Seq<Seq<char>>)
    ensures
        spec_tag_all(p, paths).len() == paths.len(),
        forall|k: int|
            0 <= k < paths.len() ==> spec_tag_all(p, paths)[k] == (OwnerMatchV {
                pkg: p,
                path: paths[k],
            }),
    decreases paths.len(),
{
    if paths.len() > 0 {
        lemma_tag_all(p, paths.drop_last());
    }
}

/// The results one package directory contributes: none when it has no
/// file list, else one per selected line of its file list, each carrying
/// the record parsed from the directory.
pub open spec fn spec_listing_matches(l: PackageListing, query: Seq<char>) -> Seq<OwnerMatchV> {
    match l.files {
        Some(f) => spec_tag_all(
            spec_record(l.db_name@, l.dir_name@, spec_desc_of(l)),
            spec_match_lines(spec_lines(f@), query),
        ),
        None => Seq::empty(),
    }
}

/// All results of an ownership query over a sequence of package
/// directories, in enumeration order.
pub open spec fn spec_find_owners(ls: Seq<PackageListing>, query: Seq<char>) -> Seq<OwnerMatchV>
    decreases ls.len(),
{
    if ls.len() == 0 {
        Seq::empty()
    } else {
        spec_find_owners(ls.drop_last(), query) + spec_listing_matches(ls.last(), query)
    }
}

/// Answer an ownership query over the given package directories: every
/// (record, path) pair whose recorded path ends with `/` followed by the
/// queried name, in enumeration order.
pub fn find_owners(listings: &Vec<PackageListing>, query: &str) -> (r: Vec<OwnerMatch>)
    ensures
        r@.len() == spec_find_owners(listings@, query@).len(),
        forall|k: int|
            0 <= k < r@.len() ==> r@[k]@ == spec_find_owners(listings@, query@)[k],
{
    let mut r: Vec<OwnerMatch> = Vec::new();
    let mut i: usize = 0;
    while i < listings.len()
        invariant
            0 <= i <= listings@.len(),
            r@.len() == spec_find_owners(listings@.take(i as int), query@).len(),
            forall|k: int|
                0 <= k < r@.len() ==> r@[k]@ == spec_find_owners(
                    listings@.take(i as int),
                    query@,
                )[k],
        decreases listings@.len() - i,
    {
        proof {
            assert(listings@.take(i + 1).drop_last() =~= listings@.take(i as int));
            assert(listings@.take(i + 1).last() == listings@[i as int]);
        }
        let listing = &listings[i];
        match &listing.files {
            None => {
                proof {
                    assert(spec_find_owners(listings@.take(i + 1), query@) =~= spec_find_owners(
                        listings@.take(i as int),
                        query@,
                    ));
                }
            },
            Some(f) => {
                let rec = parse_package_record(
                    &listing.db_name,
                    &listing.dir_name,
                    match &listing.desc {
                        Some(d) => Some(d.as_str()),
                        None => None,
                    },
                );
                let paths = match_file_lines(f.as_str(), query);
                let ghost contributed = spec_listing_matches(listings@[i as int], query@);
                proof {
                    lemma_tag_all(rec@, spec_match_lines(spec_lines(f@), query@));
                }
                let ghost r0 = r@;
                let mut m: usize = 0;
                while m < paths.len()
                    invariant
                        0 <= m <= paths@.len(),
                        paths@.len() == contributed.len(),
                        forall|k: int|
                            0 <= k < paths@.len() ==> contributed[k] == (OwnerMatchV {
                                pkg: rec@,
                                path: paths@[k]@,
                            }),
                        r@.len() == r0.len() + m,
                        forall|k: int| 0 <= k < r0.len() ==> r@[k] == r0[k],
                        forall|k: int| r0.len() <= k < r@.len() ==> r@[k]@ == contributed[
                            k - r0.len()
                        ],
                    decreases paths@.len() - m,
                {
                    r.push(OwnerMatch { pkg: rec.duplicate(), path: paths[m].clone() });
                    m = m + 1;
                }
            },
        }
        i = i + 1;
    }
    proof {
        assert(listings@.take(listings@.len() as int) =~= listings@);
    }
    r
}

} // verus!
