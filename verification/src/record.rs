//! Package metadata records and the two pure ways one is produced: parsing
//! a key-block description text, or deriving name and version from a
//! package directory name.
//!
//! The key-block format: a trimmed line `%KEY%` opens the field KEY, and
//! subsequent non-blank trimmed lines are that field's value. Recognized
//! keys are NAME, VERSION and DESC; DESC value lines are joined with
//! single spaces, and for NAME and VERSION a later value line replaces an
//! earlier one. Unrecognized keys are read but discarded; blank lines are
//! skipped without closing the open field. Parsing never fails: missing
//! fields stay empty.

use vstd::prelude::*;
use vstd::string::StringExecFns;
use crate::text::{
    chars_vec, copy_range, spec_lines, spec_strip_percents, spec_trim, split_lines,
    string_from_chars, strip_percents, trim_chars,
};

verus! {

/// One package's identity and description, as a query reports it.
pub struct Pkg {
    pub name: String,
    pub version: String,
    /// The repository the package belongs to.
    pub db_name: String,
    pub desc: String,
}

/// Mathematical image of a `Pkg`: its four fields as character sequences.
pub struct PkgV {
    pub name: Seq<char>,
    pub version: Seq<char>,
    pub db_name: Seq<char>,
    pub desc: Seq<char>,
}

impl View for Pkg {
    type V = PkgV;

    open spec fn view(&self) -> PkgV {
        PkgV {
            name: self.name@,
            version: self.version@,
            db_name: self.db_name@,
            desc: self.desc@,
        }
    }
}

impl Pkg {
    /// A field-for-field copy.
    pub fn duplicate(&self) -> (r: Pkg)
        ensures
            r == *self,
    {
        Pkg {
            name: self.name.clone(),
            version: self.version.clone(),
            db_name: self.db_name.clone(),
            desc: self.desc.clone(),
        }
    }
}

/// The field a `%KEY%` header line opens.
#[derive(Clone, Copy, PartialEq, Eq, Structural)]
pub enum FieldKey {
    Name,
    Version,
    Desc,
    /// Any key other than NAME, VERSION and DESC.
    Other,
}

/// Which field a stripped key name denotes.
pub open spec fn key_of(s: Seq<char>) -> FieldKey {
    if s == seq!['N', 'A', 'M', 'E'] {
        FieldKey::Name
    } else if s == seq!['V', 'E', 'R', 'S', 'I', 'O', 'N'] {
        FieldKey::Version
    } else if s == seq!['D', 'E', 'S', 'C'] {
        FieldKey::Desc
    } else {
        FieldKey::Other
    }
}

fn key_of_chars(v: &Vec<char>) -> (k: FieldKey)
    ensures
        k == key_of(v@),
{
    if v.len() == 4 && v[0] == 'N' && v[1] == 'A' && v[2] == 'M' && v[3] == 'E' {
        proof {
            assert(v@ =~= seq!['N', 'A', 'M', 'E']);
        }
        FieldKey::Name
    } else if v.len() == 7 && v[0] == 'V' && v[1] == 'E' && v[2] == 'R' && v[3] == 'S' && v[4] == 'I'
        && v[5] == 'O' && v[6] == 'N' {
        proof {
            assert(v@ =~= seq!['V', 'E', 'R', 'S', 'I', 'O', 'N']);
        }
        FieldKey::Version
    } else if v.len() == 4 && v[0] == 'D' && v[1] == 'E' && v[2] == 'S' && v[3] == 'C' {
        proof {
            assert(v@ =~= seq!['D', 'E', 'S', 'C']);
        }
        FieldKey::Desc
    } else {
        FieldKey::Other
    }
}

/// Parser state: the field the last header opened (none before the first
/// header), and the values gathered so far.
pub struct RecAcc {
    pub key: Option<FieldKey>,
    pub name: Seq<char>,
    pub version: Seq<char>,
    pub desc: Seq<char>,
}

/// The state before any line is read.
pub open spec fn init_acc() -> RecAcc {
    RecAcc {
        key: None,
        name: Seq::empty(),
        version: Seq::empty(),
        desc: Seq::empty(),
    }
}

/// One raw line's effect on the parser state.
pub open spec fn parse_line_step(acc: RecAcc, raw: Seq<char>) -> RecAcc {
    let t = spec_trim(raw);
    if t.len() == 0 {
        acc
    } else if t[0] == '%' && t.last() == '%' {
        RecAcc { key: Some(key_of(spec_strip_percents(t))), ..acc }
    } else {
        match acc.key {
            Some(FieldKey::Name) => RecAcc { name: t, ..acc },
            Some(FieldKey::Version) => RecAcc { version: t, ..acc },
            Some(FieldKey::Desc) => RecAcc {
                desc: if acc.desc.len() == 0 {
                    t
                } else {
                    acc.desc + seq![' '] + t
                },
                ..acc
            },
            _ => acc,
        }
    }
}

/// The parser state after reading a sequence of lines.
pub open spec fn parse_lines_acc(acc: RecAcc, lines: Seq<Seq<char>>) -> RecAcc
    decreases lines.len(),
{
    if lines.len() == 0 {
        acc
    } else {
        parse_line_step(parse_lines_acc(acc, lines.drop_last()), lines.last())
    }
}

/// The parse of a whole description text.
pub open spec fn spec_parse_fields(content: Seq<char>) -> RecAcc {
    parse_lines_acc(init_acc(), spec_lines(content))
}

fn push_all(dst: &mut Vec<char>, src: &Vec<char>)
    ensures
        final(dst)@ == old(dst)@ + src@,
{
    let mut i: usize = 0;
    while i < src.len()
        invariant
            0 <= i <= src@.len(),
            dst@ == old(dst)@ + src@.take(i as int),
        decreases src@.len() - i,
    {
        dst.push(src[i]);
        proof {
            assert(old(dst)@ + src@.take(i as int) + seq![src@[i as int]] =~= old(dst)@
                + src@.take(i + 1));
        }
        i = i + 1;
    }
    proof {
        assert(src@.take(src@.len() as int) =~= src@);
    }
}

/// Parse a key-block description text into (name, version, description).
/// Absent or malformed fields come back empty; parsing never fails.
pub fn parse_desc_fields(content: &str) -> (r: (String, String, String))
    ensures
        r.0@ == spec_parse_fields(content@).name,
        r.1@ == spec_parse_fields(content@).version,
        r.2@ == spec_parse_fields(content@).desc,
{
    let cs = chars_vec(content);
    let lines = split_lines(&cs);
    let ghost ls = spec_lines(content@);
    let mut key: Option<FieldKey> = None;
    let mut name: Vec<char> = Vec::new();
    let mut version: Vec<char> = Vec::new();
    let mut desc: Vec<char> = Vec::new();
    let mut j: usize = 0;
    while j < lines.len()
        invariant
            0 <= j <= lines@.len(),
            lines@.len() == ls.len(),
            forall|k: int| 0 <= k < lines@.len() ==> lines@[k]@ == ls[k],
            key == parse_lines_acc(init_acc(), ls.take(j as int)).key,
            name@ == parse_lines_acc(init_acc(), ls.take(j as int)).name,
            version@ == parse_lines_acc(init_acc(), ls.take(j as int)).version,
            desc@ == parse_lines_acc(init_acc(), ls.take(j as int)).desc,
        decreases lines@.len() - j,
    {
        proof {
            assert(ls.take(j + 1).drop_last() =~= ls.take(j as int));
            assert(ls.take(j + 1).last() == ls[j as int]);
        }
        let t = trim_chars(&lines[j]);
        if t.len() == 0 {
        } else if t[0] == '%' && t[t.len() - 1] == '%' {
            let stripped = strip_percents(&t);
            key = Some(key_of_chars(&stripped));
        } else {
            match key {
                Some(FieldKey::Name) => {
                    name = t;
                },
                Some(FieldKey::Version) => {
                    version = t;
                },
                Some(FieldKey::Desc) => {
                    if desc.len() == 0 {
                        desc = t;
                    } else {
                        desc.push(' ');
                        push_all(&mut desc, &t);
                    }
                },
                _ => {},
            }
        }
        j = j + 1;
    }
    proof {
        assert(ls.take(ls.len() as int) =~= ls);
    }
    (string_from_chars(&name), string_from_chars(&version), string_from_chars(&desc))
}

/// Index of the last hyphen of a directory name, if any.
pub open spec fn find_last_hyphen(s: Seq<char>) -> Option<int>
    decreases s.len(),
{
    if s.len() == 0 {
        None
    } else if s.last() == '-' {
        Some(s.len() - 1)
    } else {
        find_last_hyphen(s.drop_last())
    }
}

proof fn lemma_find_last_prefix(s: Seq<char>, j: int)
    requires
        0 <= j <= s.len(),
        forall|k: int| j <= k < s.len() ==> s[k] != '-',
    ensures
        find_last_hyphen(s) == find_last_hyphen(s.take(j)),
    decreases s.len() - j,
{
    if j == s.len() {
        assert(s.take(j) =~= s);
    } else {
        lemma_find_last_prefix(s.drop_last(), j);
        assert(s.drop_last().take(j) =~= s.take(j));
    }
}

/// Name and version derived from a `name-version` directory name: the
/// version is everything after the last hyphen, the name everything
/// before it; with no hyphen the whole string is the name and the
/// version is empty.
pub open spec fn spec_split_dir(s: Seq<char>) -> (Seq<char>, Seq<char>) {
    match find_last_hyphen(s) {
        Some(i) => (s.take(i), s.skip(i + 1)),
        None => (s, Seq::empty()),
    }
}

/// Derive (name, version) from a package directory name.
pub fn split_dir_name(dir: &str) -> (r: (String, String))
    ensures
        r.0@ == spec_split_dir(dir@).0,
        r.1@ == spec_split_dir(dir@).1,
{
    let v = chars_vec(dir);
    let mut j: usize = v.len();
    while j > 0
        invariant
            0 <= j <= v@.len(),
            v@ == dir@,
            forall|k: int| j <= k < v@.len() ==> v@[k] != '-',
        decreases j,
    {
        if v[j - 1] == '-' {
            proof {
                lemma_find_last_prefix(v@, j as int);
                assert(v@.take(j as int).last() == v@[j - 1]);
            }
            let name = copy_range(&v, 0, j - 1);
            let version = copy_range(&v, j, v.len());
            proof {
                assert(v@.subrange(0, j - 1) =~= v@.take(j - 1));
                assert(v@.subrange(j as int, v@.len() as int) =~= v@.skip(j as int));
            }
            return (string_from_chars(&name), string_from_chars(&version));
        }
        j = j - 1;
    }
    proof {
        lemma_find_last_prefix(v@, 0);
        assert(v@.take(0).len() == 0);
    }
    (string_from_chars(&v), String::new())
}

/// A package record built from a description text when one exists, and
/// from the directory name otherwise; the repository name is taken as
/// given and the fallback description is empty.
pub open spec fn spec_record(
    db_name: Seq<char>,
    dir_name: Seq<char>,
    desc_content: Option<Seq<char>>,
) -> PkgV {
    match desc_content {
        Some(c) => {
            let a = spec_parse_fields(c);
            PkgV { name: a.name, version: a.version, db_name: db_name, desc: a.desc }
        },
        None => {
            let p = spec_split_dir(dir_name);
            PkgV { name: p.0, version: p.1, db_name: db_name, desc: Seq::empty() }
        },
    }
}

/// Build one package's record from its cache directory: from the
/// description text when the directory holds one, else from the
/// directory's own name. This never fails.
pub fn parse_package_record(db_name: &str, dir_name: &str, desc_content: Option<&str>) -> (r: Pkg)
    ensures
        r@ == spec_record(
            db_name@,
            dir_name@,
            match desc_content {
                Some(c) => Some(c@),
                None => None,
            },
        ),
{
    match desc_content {
        Some(c) => {
            let (name, version, desc) = parse_desc_fields(c);
            Pkg { name, version, db_name: String::from_str(db_name), desc }
        },
        None => {
            let (name, version) = split_dir_name(dir_name);
            Pkg { name, version, db_name: String::from_str(db_name), desc: String::new() }
        },
    }
}

} // verus!
