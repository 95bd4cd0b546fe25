use vstd::prelude::*;

verus! {

/// The serialization an output dataset is written in.
#[derive(Copy, Clone, Debug, PartialEq, Eq, PartialOrd, Ord, Hash, Structural)]
pub enum OutputFormat {
    Turtle,
    Nt,
    Nq,
    Jsonld,
    Jelly,
}

impl Default for OutputFormat {
    fn default() -> (r: Self)
        ensures
            r == OutputFormat::Nq,
    {
        OutputFormat::Nq
    }
}

impl OutputFormat {
    pub open spec fn name_spec(&self) -> Seq<char> {
        match self {
            OutputFormat::Turtle => "turtle"@,
            OutputFormat::Nt => "nt"@,
            OutputFormat::Nq => "nq"@,
            OutputFormat::Jsonld => "jsonld"@,
            OutputFormat::Jelly => "jelly"@,
        }
    }

    /// The name the format is selected by.
    pub fn name(&self) -> (r: &'static str)
        ensures
            r@ == self.name_spec(),
    {
        match self {
            OutputFormat::Turtle => "turtle",
            OutputFormat::Nt => "nt",
            OutputFormat::Nq => "nq",
            OutputFormat::Jsonld => "jsonld",
            OutputFormat::Jelly => "jelly",
        }
    }
}

/// The command line of a mapping run.
#[derive(Debug, Clone, PartialEq, Eq)]
pub struct RmlCommand {
    pub mapping_file: String,
    pub output_file: Option<String>,
    pub format: OutputFormat,
    pub base_iri: Option<String>,
}

/// The syntaxes a mapping file is read in.
#[derive(Copy, Clone, Debug, PartialEq, Eq, Structural)]
pub enum MappingFormat {
    Turtle,
    NQuads,
}

/// Why a mapping file's format cannot be told from its name.
#[derive(Debug, Clone, PartialEq, Eq)]
pub enum RmlError {
    NoFileExtension,
    UnknownMappingFileType(String, String),
}

/// The position of the last `c` in `s` before position `end`.
pub open spec fn last_index_before(s: Seq<char>, c: char, end: int) -> Option<int>
    decreases end,
{
    if end <= 0 {
        None
    } else if s[end - 1] == c {
        Some(end - 1)
    } else {
        last_index_before(s, c, end - 1)
    }
}

/// A path without its trailing separators and trailing `.` components.
pub open spec fn strip_tail(p: Seq<char>) -> Seq<char>
    decreases p.len(),
{
    if p.len() > 0 && p.last() == '/' {
        strip_tail(p.drop_last())
    } else if p.len() == 1 && p[0] == '.' {
        Seq::empty()
    } else if p.len() >= 2 && p.last() == '.' && p[p.len() - 2] == '/' {
        strip_tail(p.drop_last())
    } else {
        p
    }
}

/// The file name of a path: its last component once trailing separators
/// and `.` components are set aside; none when that is empty or `..`.
pub open spec fn file_name_spec(p: Seq<char>) -> Option<Seq<char>> {
    let q = strip_tail(p);
    let name = match last_index_before(q, '/', q.len() as int) {
        Some(i) => q.subrange(i + 1, q.len() as int),
        None => q,
    };
    if name.len() == 0 || name == seq!['.', '.'] {
        None
    } else {
        Some(name)
    }
}

/// The extension of a path: what follows the last `.` of its file name,
/// where that `.` is not the name's first character.
pub open spec fn extension_spec(p: Seq<char>) -> Option<Seq<char>> {
    match file_name_spec(p) {
        Some(name) => match last_index_before(name, '.', name.len() as int) {
            Some(i) => if i > 0 {
                Some(name.subrange(i + 1, name.len() as int))
            } else {
                None
            },
            None => None,
        },
        None => None,
    }
}

proof fn lemma_last_index_bounds(s: Seq<char>, c: char, end: int)
    requires
        end <= s.len(),
    ensures
        last_index_before(s, c, end) matches Some(i) ==> 0 <= i < end && s[i] == c,
    decreases end,
{
    if end > 0 && s[end - 1] != c {
        lemma_last_index_bounds(s, c, end - 1);
    }
}

fn last_index_of(s: &str, c: char) -> (r: Option<usize>)
    ensures
        match r {
            Some(i) => last_index_before(s@, c, s@.len() as int) == Some(i as int),
            None => last_index_before(s@, c, s@.len() as int) is None,
        },
{
    let mut end = s.unicode_len();
    while end > 0
        invariant
            end <= s@.len(),
            last_index_before(s@, c, s@.len() as int) == last_index_before(s@, c, end as int),
        decreases end,
    {
        if s.get_char(end - 1) == c {
            return Some(end - 1);
        }
        end = end - 1;
    }
    None
}

fn strip_tail_len(path: &str) -> (r: usize)
    ensures
        r <= path@.len(),
        strip_tail(path@) == path@.subrange(0, r as int),
{
    let mut end = path.unicode_len();
    assert(path@.subrange(0, end as int) =~= path@);
    while end > 0
        invariant
            end <= path@.len(),
            strip_tail(path@) == strip_tail(path@.subrange(0, end as int)),
        decreases end,
    {
        let ghost q = path@.subrange(0, end as int);
        let c = path.get_char(end - 1);
        if c == '/' {
            assert(q.drop_last() =~= path@.subrange(0, end - 1));
            end = end - 1;
        } else if c == '.' && end == 1 {
            assert(strip_tail(q) == Seq::<char>::empty());
            assert(path@.subrange(0, 0) =~= Seq::<char>::empty());
            return 0;
        } else if c == '.' && path.get_char(end - 2) == '/' {
            assert(q.drop_last() =~= path@.subrange(0, end - 1));
            end = end - 1;
        } else {
            return end;
        }
    }
    end
}

/// The extension of a path, as `extension_spec` describes it.
pub fn extension_of(path: &str) -> (r: Option<&str>)
    ensures
        match r {
            Some(e) => extension_spec(path@) == Some(e@),
            None => extension_spec(path@) is None,
        },
{
    let end = strip_tail_len(path);
    let stripped = path.substring_char(0, end);
    let name = match last_index_of(stripped, '/') {
        Some(i) => {
            proof {
                lemma_last_index_bounds(stripped@, '/', stripped@.len() as int);
            }
            stripped.substring_char(i + 1, end)
        },
        None => stripped,
    };
    let m = name.unicode_len();
    if m == 0 || (m == 2 && name.get_char(0) == '.' && name.get_char(1) == '.') {
        proof {
            if m == 2 {
                assert(name@ =~= seq!['.', '.']);
            }
        }
        return None;
    }
    assert(name@ != seq!['.', '.']);
    match last_index_of(name, '.') {
        Some(i) => {
            proof {
                lemma_last_index_bounds(name@, '.', name@.len() as int);
            }
            if i > 0 {
                Some(name.substring_char(i + 1, m))
            } else {
                None
            }
        },
        None => None,
    }
}

/// The format of a mapping file, from its extension: `ttl` is Turtle,
/// `nq` and `nquads` are N-Quads.
pub fn mapping_format_from_ext(path: &str) -> (r: Result<MappingFormat, RmlError>)
    ensures
        match extension_spec(path@) {
            None => r == Err::<MappingFormat, RmlError>(RmlError::NoFileExtension),
            Some(e) => if e == "ttl"@ {
                r == Ok::<MappingFormat, RmlError>(MappingFormat::Turtle)
            } else if e == "nq"@ || e == "nquads"@ {
                r == Ok::<MappingFormat, RmlError>(MappingFormat::NQuads)
            } else {
                r matches Err(RmlError::UnknownMappingFileType(p, x)) && p@ == path@ && x@ == e
            },
        },
{
    match extension_of(path) {
        None => Err(RmlError::NoFileExtension),
        Some(e) => {
            let ext = String::from_str(e);
            if ext == String::from_str("ttl") {
                Ok(MappingFormat::Turtle)
            } else if ext == String::from_str("nq") || ext == String::from_str("nquads") {
                Ok(MappingFormat::NQuads)
            } else {
                Err(RmlError::UnknownMappingFileType(String::from_str(path), ext))
            }
        },
    }
}

} // verus!
