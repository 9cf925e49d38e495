use vstd::prelude::*;
use vstd::string::*;

verus! {

/// Index of the last occurrence of `c` in `s`, or -1 when there is none.
pub open spec fn last_index_of(s: Seq<char>, c: char) -> int
    decreases s.len(),
{
    if s.len() == 0 {
        -1
    } else if s.last() == c {
        s.len() - 1
    } else {
        last_index_of(s.drop_last(), c)
    }
}

/// Path separators: `/` and `\`.
pub open spec fn is_sep(c: char) -> bool {
    c == '/' || c == '\\'
}

/// Index of the last separator in `s`, or -1 when there is none.
pub open spec fn last_sep(s: Seq<char>) -> int
    decreases s.len(),
{
    if s.len() == 0 {
        -1
    } else if is_sep(s.last()) {
        s.len() - 1
    } else {
        last_sep(s.drop_last())
    }
}

/// Whether the last character of `p` is a trailing separator, or a `.` that
/// forms a segment of its own; such characters do not name anything.
pub open spec fn ends_in_noise(p: Seq<char>) -> bool {
    p.len() > 0 && (is_sep(p.last()) || (p.last() == '.' && (p.len() == 1 || is_sep(
        p[p.len() - 2],
    ))))
}

/// `p` without trailing separators and trailing `.` segments.
pub open spec fn trim_tail(p: Seq<char>) -> Seq<char>
    decreases p.len(),
{
    if ends_in_noise(p) {
        trim_tail(p.drop_last())
    } else {
        p
    }
}

/// The last named segment of a path: trailing separators and `.` segments are
/// skipped, as `Path::file_name` does.
pub open spec fn base_name(path: Seq<char>) -> Seq<char> {
    let t = trim_tail(path);
    t.subrange(last_sep(t) + 1, t.len() as int)
}

/// A path whose last named segment names a file: not empty and not `..`.
pub open spec fn names_file(path: Seq<char>) -> bool {
    let b = base_name(path);
    b.len() > 0 && b != seq!['.', '.']
}

/// A file name without its final `.`-segment; a name without `.` stays whole.
pub open spec fn strip_extension(name: Seq<char>) -> Seq<char> {
    let i = last_index_of(name, '.');
    if i < 0 {
        name
    } else {
        name.subrange(0, i)
    }
}

/// The name that a source file's artifacts are filed under.
pub open spec fn file_stem(path: Seq<char>) -> Seq<char> {
    strip_extension(base_name(path))
}

proof fn lemma_last_sep_bounds(s: Seq<char>)
    ensures
        -1 <= last_sep(s) < s.len(),
    decreases s.len(),
{
    if s.len() > 0 && !is_sep(s.last()) {
        lemma_last_sep_bounds(s.drop_last());
    }
}

fn is_sep_char(c: char) -> (r: bool)
    ensures
        r == is_sep(c),
{
    c == '/' || c == '\\'
}

/// Position of the last separator in `s`, if any.
fn find_last_sep(s: &str) -> (r: Option<usize>)
    ensures
        match r {
            Some(i) => i == last_sep(s@) && i < s@.len(),
            None => last_sep(s@) == -1,
        },
{
    let n = s.unicode_len();
    let mut i: usize = n;
    assert(s@.subrange(0, n as int) =~= s@);
    while i > 0
        invariant
            i <= n == s@.len(),
            last_sep(s@) == last_sep(s@.subrange(0, i as int)),
        decreases i,
    {
        if is_sep_char(s.get_char(i - 1)) {
            proof {
                assert(s@.subrange(0, i as int).last() == s@[i - 1]);
            }
            return Some(i - 1);
        }
        proof {
            let p = s@.subrange(0, i as int);
            assert(p.drop_last() =~= s@.subrange(0, i - 1));
        }
        i = i - 1;
    }
    None
}

fn noise_at_end(s: &str, end: usize) -> (r: bool)
    requires
        end <= s@.len(),
    ensures
        r == ends_in_noise(s@.subrange(0, end as int)),
{
    if end == 0 {
        return false;
    }
    let c = s.get_char(end - 1);
    is_sep_char(c) || (c == '.' && (end == 1 || is_sep_char(s.get_char(end - 2))))
}

/// The last named segment of `path`.
pub(crate) fn file_name(path: &str) -> (r: &str)
    ensures
        r@ == base_name(path@),
{
    let n = path.unicode_len();
    let mut end: usize = n;
    assert(path@.subrange(0, n as int) =~= path@);
    while noise_at_end(path, end)
        invariant
            end <= n == path@.len(),
            trim_tail(path@) == trim_tail(path@.subrange(0, end as int)),
        decreases end,
    {
        assert(path@.subrange(0, end as int).drop_last() =~= path@.subrange(0, end - 1));
        end = end - 1;
    }
    let t = path.substring_char(0, end);
    assert(trim_tail(path@) == t@);
    proof {
        lemma_last_sep_bounds(t@);
    }
    let start: usize = match find_last_sep(t) {
        Some(i) => i + 1,
        None => 0,
    };
    t.substring_char(start, end)
}

/// Position of the last `c` in `s`, if any.
pub(crate) fn find_last(s: &str, c: char) -> (r: Option<usize>)
    ensures
        match r {
            Some(i) => i == last_index_of(s@, c) && i < s@.len(),
            None => last_index_of(s@, c) == -1,
        },
{
    let n = s.unicode_len();
    let mut i: usize = n;
    assert(s@.subrange(0, n as int) =~= s@);
    while i > 0
        invariant
            i <= n == s@.len(),
            last_index_of(s@, c) == last_index_of(s@.subrange(0, i as int), c),
        decreases i,
    {
        if s.get_char(i - 1) == c {
            proof {
                assert(s@.subrange(0, i as int).last() == c);
            }
            return Some(i - 1);
        }
        proof {
            let p = s@.subrange(0, i as int);
            assert(p.drop_last() =~= s@.subrange(0, i - 1));
        }
        i = i - 1;
    }
    proof {
        assert(s@.subrange(0, 0).len() == 0);
    }
    None
}

/// Whether the last named segment of `path` names a file.
pub fn names_file_path(path: &str) -> (r: bool)
    ensures
        r == names_file(path@),
{
    let name = file_name(path);
    let m = name.unicode_len();
    let r = m > 0 && !(m == 2 && name.get_char(0) == '.' && name.get_char(1) == '.');
    assert(r == names_file(path@)) by {
        if m == 2 && name@[0] == '.' && name@[1] == '.' {
            assert(name@ =~= seq!['.', '.']);
        }
    }
    r
}

/// What this library knows of one source file.
pub struct FileInfo {
    pub id: u32,
    pub hash_key: String,
    pub total_frame: u32,
    pub file_path: String,
    pub file_size: u32,
}

impl FileInfo {
    pub fn new(id: u32, hash_key: String, total_frame: u32, file_path: String, file_size: u32) -> (r:
        Self)
        ensures
            r.id == id,
            r.hash_key == hash_key,
            r.total_frame == total_frame,
            r.file_path == file_path,
            r.file_size == file_size,
    {
        Self { id, hash_key, total_frame, file_path, file_size }
    }

    /// The record of a file not yet resolved: no id, no frame count, the
    /// fingerprint and size that could be read (empty and 0 where not), the size
    /// kept to its low 32 bits.
    pub fn from_path(path: &str, hash_key: Option<String>, size: Option<u64>) -> (r: Self)
        ensures
            r.id == 0,
            r.total_frame == 0,
            r.file_path@ == path@,
            hash_key matches Some(h) ==> r.hash_key == h,
            hash_key is None ==> r.hash_key@.len() == 0,
            size matches Some(n) ==> r.file_size as int == n as int % 4294967296,
            size is None ==> r.file_size == 0,
    {
        let hash_key = match hash_key {
            Some(h) => h,
            None => String::new(),
        };
        let file_size: u32 = match size {
            Some(n) => (n % 4294967296) as u32,
            None => 0,
        };
        Self { id: 0, hash_key, total_frame: 0, file_path: String::from_str(path), file_size }
    }

    /// The file name of `file_path` without its final extension: `dir/a.b.mp4`
    /// gives `a.b`, `dir/movie` gives `movie`, `dir/.hidden` gives the empty
    /// string. Both `/` and `\` separate segments.
    pub fn obtain_filename(file_path: &str) -> (r: String)
        requires
            names_file(file_path@),
        ensures
            r@ == file_stem(file_path@),
    {
        let name = file_name(file_path);
        match find_last(name, '.') {
            Some(j) => String::from_str(name.substring_char(0, j)),
            None => String::from_str(name),
        }
    }
}

/// A request that carries a search keyword.
pub struct CodeRequest {
    pub code: String,
}

/// The response envelope: a status code, an optional payload and an optional message.
pub struct R<T> {
    pub code: i32,
    pub data: Option<T>,
    pub msg: Option<String>,
}

impl<T> R<T> {
    pub fn new(code: i32, data: Option<T>, msg: Option<String>) -> (r: Self)
        ensures
            r.code == code,
            r.data == data,
            r.msg == msg,
    {
        Self { code, data, msg }
    }

    /// A success envelope: code 0, the payload, no message.
    pub fn ok(data: T) -> (r: Self)
        ensures
            r.code == 0,
            r.data == Some(data),
            r.msg.is_none(),
    {
        Self::new(0, Some(data), None)
    }

    /// A failure envelope: the given code and message, no payload.
    pub fn err(code: i32, msg: String) -> (r: Self)
        ensures
            r.code == code,
            r.data.is_none(),
            r.msg == Some(msg),
    {
        Self::new(code, None, Some(msg))
    }
}

/// One match reported by the file search service.
pub struct SdkFileItem {
    pub index: u32,
    /// Full path of the file.
    pub filepath: String,
    /// File name with its extension.
    pub filename: String,
    /// Extension.
    pub ext: String,
    /// Directory that holds the file.
    pub path: String,
    /// Size in bytes.
    pub size: u64,
    /// Creation time, as text.
    pub date_created: String,
    /// Whether the match is a directory.
    pub is_dir: bool,
}

} // verus!
