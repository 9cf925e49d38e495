use vstd::prelude::*;
use vstd::string::*;
use crate::model::{
    base_name, file_name, find_last, last_index_of, names_file, names_file_path, R,
};

verus! {

/// The extension of the file that `path` names: what follows the last `.` of
/// its name, where that `.` is not the name's first character.
pub open spec fn extension(path: Seq<char>) -> Option<Seq<char>> {
    let name = base_name(path);
    let i = last_index_of(name, '.');
    if !names_file(path) || i <= 0 {
        None
    } else {
        Some(name.subrange(i + 1, name.len() as int))
    }
}

/// `c` is the lower-case ASCII letter `lower`, in either case.
pub open spec fn same_letter(c: char, lower: char) -> bool {
    c == lower || ('A' <= c <= 'Z' && c as u32 + 32 == lower as u32)
}

/// `ext` spells `lit` (lower-case ASCII) with case ignored.
pub open spec fn ext_is(ext: Seq<char>, lit: Seq<char>) -> bool {
    ext.len() == lit.len() && forall|i: int| 0 <= i < ext.len() ==> same_letter(ext[i], lit[i])
}

/// The media type that a file is served with, chosen by its extension.
pub open spec fn mime_of(path: Seq<char>) -> Seq<char> {
    match extension(path) {
        Some(e) => if ext_is(e, "png"@) {
            "image/png"@
        } else if ext_is(e, "jpg"@) || ext_is(e, "jpeg"@) {
            "image/jpeg"@
        } else if ext_is(e, "gif"@) {
            "image/gif"@
        } else if ext_is(e, "webp"@) {
            "image/webp"@
        } else if ext_is(e, "svg"@) {
            "image/svg+xml"@
        } else {
            "application/octet-stream"@
        },
        None => "application/octet-stream"@,
    }
}

fn ext_equals(ext: &str, lit: &str) -> (r: bool)
    ensures
        r == ext_is(ext@, lit@),
{
    let n = ext.unicode_len();
    if n != lit.unicode_len() {
        return false;
    }
    let mut i: usize = 0;
    while i < n
        invariant
            i <= n == ext@.len() == lit@.len(),
            forall|k: int| 0 <= k < i ==> same_letter(ext@[k], lit@[k]),
        decreases n - i,
    {
        let c = ext.get_char(i);
        let l = lit.get_char(i);
        if !(c == l || ('A' <= c && c <= 'Z' && c as u32 + 32 == l as u32)) {
            return false;
        }
        i = i + 1;
    }
    true
}

/// The media type for the file at `path`, by its extension; unknown or missing
/// extensions give `application/octet-stream`.
pub fn mime_type(path: &str) -> (r: &'static str)
    ensures
        r@ == mime_of(path@),
{
    proof {
        reveal_strlit("png");
        reveal_strlit("jpg");
        reveal_strlit("jpeg");
        reveal_strlit("gif");
        reveal_strlit("webp");
        reveal_strlit("svg");
        reveal_strlit("image/png");
        reveal_strlit("image/jpeg");
        reveal_strlit("image/gif");
        reveal_strlit("image/webp");
        reveal_strlit("image/svg+xml");
        reveal_strlit("application/octet-stream");
    }
    if !names_file_path(path) {
        return "application/octet-stream";
    }
    let name = file_name(path);
    let m = name.unicode_len();
    let dot = match find_last(name, '.') {
        Some(j) => j,
        None => {
            return "application/octet-stream";
        },
    };
    if dot == 0 {
        return "application/octet-stream";
    }
    let ext = name.substring_char(dot + 1, m);
    if ext_equals(ext, "png") {
        "image/png"
    } else if ext_equals(ext, "jpg") || ext_equals(ext, "jpeg") {
        "image/jpeg"
    } else if ext_equals(ext, "gif") {
        "image/gif"
    } else if ext_equals(ext, "webp") {
        "image/webp"
    } else if ext_equals(ext, "svg") {
        "image/svg+xml"
    } else {
        "application/octet-stream"
    }
}

/// The standard base64 alphabet.
pub open spec fn b64_alphabet() -> Seq<char> {
    "ABCDEFGHIJKLMNOPQRSTUVWXYZabcdefghijklmnopqrstuvwxyz0123456789+/"@
}

/// The base64 digit of a 6-bit value.
pub open spec fn b64_digit(v: int) -> char {
    b64_alphabet()[v]
}

/// Standard base64 with `=` padding: each group of three bytes becomes four
/// digits; a final group of one or two bytes becomes two or three digits and
/// is padded to four.
pub open spec fn base64_of(data: Seq<u8>) -> Seq<char>
    decreases data.len(),
{
    if data.len() == 0 {
        Seq::empty()
    } else if data.len() == 1 {
        let b0 = data[0] as int;
        seq![b64_digit(b0 / 4), b64_digit((b0 % 4) * 16), '=', '=']
    } else if data.len() == 2 {
        let b0 = data[0] as int;
        let b1 = data[1] as int;
        seq![b64_digit(b0 / 4), b64_digit((b0 % 4) * 16 + b1 / 16), b64_digit((b1 % 16) * 4), '=']
    } else {
        let b0 = data[0] as int;
        let b1 = data[1] as int;
        let b2 = data[2] as int;
        seq![
            b64_digit(b0 / 4),
            b64_digit((b0 % 4) * 16 + b1 / 16),
            b64_digit((b1 % 16) * 4 + b2 / 64),
            b64_digit(b2 % 64),
        ] + base64_of(data.subrange(3, data.len() as int))
    }
}

/// Four characters for each started group of three bytes.
pub proof fn lemma_base64_len(data: Seq<u8>)
    ensures
        base64_of(data).len() == 4 * ((data.len() + 2) / 3),
    decreases data.len(),
{
    if data.len() > 2 {
        lemma_base64_len(data.subrange(3, data.len() as int));
    }
}

/// Relies on base64's `general_purpose::STANDARD.encode`: the standard
/// alphabet, with `=` padding.
#[verifier::external_body]
fn base64_encode(data: &[u8]) -> (r: String)
    ensures
        r@ == base64_of(data@),
{
    base64::Engine::encode(&base64::engine::general_purpose::STANDARD, data)
}

/// `data:<media type>;base64,<encoded bytes>`.
pub open spec fn data_uri(path: Seq<char>, bytes: Seq<u8>) -> Seq<char> {
    "data:"@ + mime_of(path) + ";base64,"@ + base64_of(bytes)
}

/// The data URI of the file at `path` whose bytes are `bytes`.
pub fn gen_imgbase64_by_path(path: &str, bytes: &Vec<u8>) -> (r: String)
    ensures
        r@ == data_uri(path@, bytes@),
        r@.len() == 13 + mime_of(path@).len() + 4 * ((bytes@.len() + 2) / 3),
{
    proof {
        reveal_strlit("data:");
        reveal_strlit(";base64,");
        lemma_base64_len(bytes@);
    }
    let mime = mime_type(path);
    let encoded = base64_encode(bytes.as_slice());
    let mut r = String::from_str("data:");
    r.append(mime);
    r.append(";base64,");
    r.append(encoded.as_str());
    r
}

/// Lists joined in order.
pub open spec fn join_lists<A>(parts: Seq<Seq<A>>) -> Seq<A>
    decreases parts.len(),
{
    if parts.len() == 0 {
        Seq::empty()
    } else {
        join_lists(parts.drop_last()) + parts.last()
    }
}

/// Total number of items over all lists.
pub open spec fn total_len<A>(parts: Seq<Seq<A>>) -> nat
    decreases parts.len(),
{
    if parts.len() == 0 {
        0
    } else {
        total_len(parts.drop_last()) + parts.last().len()
    }
}

/// The joined list is as long as all the lists together.
pub proof fn lemma_join_len<A>(parts: Seq<Seq<A>>)
    ensures
        join_lists(parts).len() == total_len(parts),
    decreases parts.len(),
{
    if parts.len() > 0 {
        lemma_join_len(parts.drop_last());
    }
}

/// The encoded artifacts of each file, joined in the order of the files.
pub fn flatten_results(lists: &Vec<Vec<String>>) -> (r: Vec<String>)
    ensures
        r@ == join_lists(lists@.map_values(|l: Vec<String>| l@)),
        r@.len() == total_len(lists@.map_values(|l: Vec<String>| l@)),
{
    let ghost vs = lists@.map_values(|l: Vec<String>| l@);
    let mut r: Vec<String> = Vec::new();
    let mut i: usize = 0;
    assert(vs.take(0) =~= Seq::<Seq<String>>::empty());
    while i < lists.len()
        invariant
            i <= lists@.len(),
            vs == lists@.map_values(|l: Vec<String>| l@),
            r@ == join_lists(vs.take(i as int)),
        decreases lists@.len() - i,
    {
        let list = &lists[i];
        let ghost before = r@;
        let mut j: usize = 0;
        while j < list.len()
            invariant
                j <= list@.len(),
                r@ == before + list@.take(j as int),
            decreases list@.len() - j,
        {
            r.push(list[j].clone());
            assert(r@ =~= before + list@.take(j + 1));
            j = j + 1;
        }
        assert(vs.take(i + 1).drop_last() =~= vs.take(i as int));
        assert(list@.take(j as int) =~= list@);
        assert(vs.take(i + 1).last() == list@);
        i = i + 1;
    }
    assert(vs.take(i as int) =~= vs);
    proof {
        lemma_join_len(vs);
    }
    r
}

/// The batch response: code 0 and the encoded artifacts of all files, joined
/// in the order of the files.
pub fn thumbnails_response(lists: &Vec<Vec<String>>) -> (r: R<Vec<String>>)
    ensures
        r.code == 0,
        r.msg.is_none(),
        r.data matches Some(d) && d@ == join_lists(lists@.map_values(|l: Vec<String>| l@)),
        r.data matches Some(d) && d@.len() == total_len(lists@.map_values(|l: Vec<String>| l@)),
{
    R::ok(flatten_results(lists))
}

/// The message of the first failed file, if any file failed.
pub open spec fn first_error(results: Seq<Result<Vec<String>, String>>) -> Option<String>
    decreases results.len(),
{
    if results.len() == 0 {
        None
    } else {
        match results[0] {
            Err(m) => Some(m),
            Ok(_) => first_error(results.drop_first()),
        }
    }
}

/// The artifacts of each file that succeeded; nothing for one that failed.
pub open spec fn ok_lists(results: Seq<Result<Vec<String>, String>>) -> Seq<Seq<String>> {
    results.map_values(
        |x: Result<Vec<String>, String>|
            match x {
                Ok(v) => v@,
                Err(_) => Seq::empty(),
            },
    )
}

fn copy_strings(v: &Vec<String>) -> (r: Vec<String>)
    ensures
        r@ == v@,
{
    let mut r: Vec<String> = Vec::new();
    let mut j: usize = 0;
    while j < v.len()
        invariant
            j <= v@.len(),
            r@ == v@.take(j as int),
        decreases v@.len() - j,
    {
        r.push(v[j].clone());
        assert(r@ =~= v@.take(j + 1));
        j = j + 1;
    }
    assert(v@.take(j as int) =~= v@);
    r
}

/// The batch response over each file's outcome. A single failure fails the
/// whole batch: code -1, no data, the first failure's message. Otherwise the
/// response is what `thumbnails_response` gives.
pub fn batch_response(results: &Vec<Result<Vec<String>, String>>) -> (r: R<Vec<String>>)
    ensures
        first_error(results@) matches Some(m) ==> r.code == -1 && r.data.is_none() && r.msg
            == Some(m),
        first_error(results@) is None ==> r.code == 0 && r.msg.is_none() && (r.data matches Some(
            d,
        ) && d@ == join_lists(ok_lists(results@))),
{
    let mut lists: Vec<Vec<String>> = Vec::new();
    let mut i: usize = 0;
    assert(results@.subrange(0, results@.len() as int) =~= results@);
    while i < results.len()
        invariant
            i <= results@.len(),
            first_error(results@) == first_error(results@.subrange(i as int, results@.len() as int)),
            lists@.len() == i,
            lists@.map_values(|l: Vec<String>| l@) == ok_lists(results@).take(i as int),
        decreases results@.len() - i,
    {
        let ghost rest = results@.subrange(i as int, results@.len() as int);
        assert(rest[0] == results@[i as int]);
        assert(rest.drop_first() =~= results@.subrange(i + 1, results@.len() as int));
        match &results[i] {
            Err(m) => {
                return R::err(-1, m.clone());
            },
            Ok(v) => {
                let c = copy_strings(v);
                let ghost prev = lists@;
                lists.push(c);
                proof {
                    assert(ok_lists(results@)[i as int] == v@);
                    assert(forall|k: int| 0 <= k < i ==> lists@[k] == prev[k]);
                    assert(forall|k: int|
                        0 <= k < i ==> prev.map_values(|l: Vec<String>| l@)[k] == prev[k]@);
                    assert(lists@.map_values(|l: Vec<String>| l@) =~= ok_lists(results@).take(
                        i + 1,
                    ));
                }
            },
        }
        i = i + 1;
    }
    assert(ok_lists(results@).take(i as int) =~= ok_lists(results@));
    thumbnails_response(&lists)
}

} // verus!
