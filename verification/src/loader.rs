//! Format dispatch: the file extension decides how a source document is
//! parsed and how the merged document is rendered. Reading and writing the
//! bytes themselves are I/O and live with the caller.

use vstd::prelude::*;

verus! {

/// The serialization formats the system understands.
#[derive(Clone, Copy, PartialEq, Eq, Structural, Debug)]
pub enum DocFormat {
    Json,
    Yaml,
}

/// The ways loading a source document can fail.
#[derive(Clone, Copy, PartialEq, Eq, Structural, Debug)]
pub enum LoadError {
    /// The path's extension names no supported format.
    UnsupportedFormat,
    /// The file could not be read.
    Unreadable,
    /// The text could not be parsed as a document in its format.
    Unparseable,
}

/// The last position of `c` in `s`, if any.
pub open spec fn rfind(s: Seq<char>, c: char) -> Option<int>
    decreases s,
{
    if s.len() == 0 {
        Option::None
    } else if s[s.len() - 1] == c {
        Option::Some(s.len() - 1)
    } else {
        rfind(s.drop_last(), c)
    }
}

/// What `rfind` returns: the last occurrence, or nothing when the
/// character does not occur.
pub proof fn lemma_rfind(s: Seq<char>, c: char)
    ensures
        match rfind(s, c) {
            Option::Some(i) => 0 <= i < s.len() && s[i] == c && forall|j: int|
                i < j < s.len() ==> s[j] != c,
            Option::None => forall|j: int| 0 <= j < s.len() ==> s[j] != c,
        },
    decreases s,
{
    if s.len() > 0 && s[s.len() - 1] != c {
        lemma_rfind(s.drop_last(), c);
        assert forall|j: int| 0 <= j < s.len() - 1 implies s.drop_last()[j] == s[j] by {}
    }
}

/// The extension of a path: what follows the last `.` of the file name
/// (the part after the last `/`), unless the file name has no `.` past
/// its first character.
pub open spec fn extension_of(path: Seq<char>) -> Option<Seq<char>> {
    let start = match rfind(path, '/') {
        Option::Some(i) => i + 1,
        Option::None => 0,
    };
    let name = path.subrange(start, path.len() as int);
    match rfind(name, '.') {
        Option::Some(j) => if j > 0 {
            Option::Some(name.subrange(j + 1, name.len() as int))
        } else {
            Option::None
        },
        Option::None => Option::None,
    }
}

/// ASCII lowercasing of one character.
pub open spec fn lower_char(c: char) -> char {
    if 'A' <= c && c <= 'Z' {
        (((c as u8) + 32) as char)
    } else {
        c
    }
}

/// ASCII lowercasing, character by character.
pub open spec fn lower(s: Seq<char>) -> Seq<char> {
    s.map_values(|c: char| lower_char(c))
}

/// Which parser the loader dispatches a source path to: a `yaml`
/// extension means the YAML parser, `json` the JSON parser (compared
/// case-insensitively); any other extension, or none, is an unsupported
/// format.
pub open spec fn load_format_spec(path: Seq<char>) -> Result<DocFormat, LoadError> {
    match extension_of(path) {
        Option::Some(e) => if lower(e) == "yaml"@ {
            Result::Ok(DocFormat::Yaml)
        } else if lower(e) == "json"@ {
            Result::Ok(DocFormat::Json)
        } else {
            Result::Err(LoadError::UnsupportedFormat)
        },
        Option::None => Result::Err(LoadError::UnsupportedFormat),
    }
}

/// Which format the serializer renders the merged document to: a `yaml`
/// destination extension means YAML; anything else — `json`, an unknown
/// extension, none at all, or standard output — defaults to JSON.
pub open spec fn output_format_spec(destination: Seq<char>) -> DocFormat {
    match extension_of(destination) {
        Option::Some(e) => if lower(e) == "yaml"@ {
            DocFormat::Yaml
        } else {
            DocFormat::Json
        },
        Option::None => DocFormat::Json,
    }
}

fn rfind_char(s: &str, c: char) -> (res: Option<usize>)
    ensures
        match res {
            Option::Some(i) => rfind(s@, c) == Option::Some(i as int),
            Option::None => rfind(s@, c) == Option::<int>::None,
        },
{
    proof {
        lemma_rfind(s@, c);
    }
    let len = s.unicode_len();
    let mut i: usize = len;
    while i > 0
        invariant
            i <= len,
            len == s@.len(),
            forall|j: int| i <= j < s@.len() ==> s@[j] != c,
        decreases i,
    {
        i = i - 1;
        if s.get_char(i) == c {
            proof {
                lemma_rfind(s@, c);
                assert(s@[i as int] == c);
            }
            return Option::Some(i);
        }
    }
    proof {
        lemma_rfind(s@, c);
    }
    Option::None
}

/// The extension of a path, as `extension_of` defines it.
pub fn path_extension(path: &str) -> (res: Option<String>)
    ensures
        match res {
            Option::Some(e) => extension_of(path@) == Option::Some(e@),
            Option::None => extension_of(path@) == Option::<Seq<char>>::None,
        },
{
    let len = path.unicode_len();
    let start = match rfind_char(path, '/') {
        Option::Some(i) => {
            proof {
                lemma_rfind(path@, '/');
            }
            i + 1
        },
        Option::None => 0,
    };
    let name = path.substring_char(start, len);
    proof {
        assert(name@ == path@.subrange(start as int, path@.len() as int));
    }
    let nlen = name.unicode_len();
    match rfind_char(name, '.') {
        Option::Some(j) => {
            proof {
                lemma_rfind(name@, '.');
            }
            if j > 0 {
                let e = name.substring_char(j + 1, nlen).to_owned();
                proof {
                    assert(e@ == name@.subrange(j + 1, name@.len() as int));
                }
                Option::Some(e)
            } else {
                Option::None
            }
        },
        Option::None => Option::None,
    }
}

fn eq_lowered(s: &str, t: &str) -> (res: bool)
    ensures
        res == (lower(s@) == lower(t@)),
{
    let slen = s.unicode_len();
    let tlen = t.unicode_len();
    if slen != tlen {
        proof {
            assert(lower(s@).len() == s@.len());
            assert(lower(t@).len() == t@.len());
        }
        return false;
    }
    let mut i: usize = 0;
    while i < slen
        invariant
            i <= slen,
            slen == s@.len(),
            slen == t@.len(),
            forall|k: int| 0 <= k < i ==> lower_char(s@[k]) == lower_char(t@[k]),
        decreases slen - i,
    {
        let a = s.get_char(i);
        let b = t.get_char(i);
        let la = if 'A' <= a && a <= 'Z' {
            ((a as u8) + 32) as char
        } else {
            a
        };
        let lb = if 'A' <= b && b <= 'Z' {
            ((b as u8) + 32) as char
        } else {
            b
        };
        if la != lb {
            proof {
                assert(lower(s@)[i as int] != lower(t@)[i as int]);
            }
            return false;
        }
        i += 1;
    }
    proof {
        assert(lower(s@) =~= lower(t@));
    }
    true
}

/// Decides how a source document at `path` is to be parsed: `yaml` and
/// `json` extensions dispatch to the matching parser, anything else is
/// rejected as an unsupported format.
pub fn load_format(path: &str) -> (res: Result<DocFormat, LoadError>)
    ensures
        res == load_format_spec(path@),
{
    match path_extension(path) {
        Option::Some(e) => {
            if eq_lowered(e.as_str(), "yaml") {
                proof {
                    lemma_lower_lowercase_yaml();
                }
                Result::Ok(DocFormat::Yaml)
            } else if eq_lowered(e.as_str(), "json") {
                proof {
                    lemma_lower_lowercase_yaml();
                }
                Result::Ok(DocFormat::Json)
            } else {
                proof {
                    lemma_lower_lowercase_yaml();
                }
                Result::Err(LoadError::UnsupportedFormat)
            }
        },
        Option::None => Result::Err(LoadError::UnsupportedFormat),
    }
}

/// Decides how the merged document is rendered for `destination`,
/// defaulting to JSON whenever the destination does not name YAML.
pub fn output_format(destination: &str) -> (res: DocFormat)
    ensures
        res == output_format_spec(destination@),
{
    match path_extension(destination) {
        Option::Some(e) => {
            if eq_lowered(e.as_str(), "yaml") {
                proof {
                    lemma_lower_lowercase_yaml();
                }
                DocFormat::Yaml
            } else {
                proof {
                    lemma_lower_lowercase_yaml();
                }
                DocFormat::Json
            }
        },
        Option::None => DocFormat::Json,
    }
}

/// The two format names are already lower case, so lowercasing them
/// changes nothing.
proof fn lemma_lower_lowercase_yaml()
    ensures
        lower("yaml"@) == "yaml"@,
        lower("json"@) == "json"@,
{
    reveal_strlit("yaml");
    reveal_strlit("json");
    assert(lower("yaml"@) =~= "yaml"@);
    assert(lower("json"@) =~= "json"@);
}

} // verus!
