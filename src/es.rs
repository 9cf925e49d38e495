use vstd::prelude::*;
use vstd::string::*;

verus! {

/// Most matches asked of the search service.
pub const MAX_MATCHES: u32 = 20;

/// The filter put before every keyword: files over 128 MB with a video extension.
pub open spec fn video_filter() -> Seq<char> {
    "size:>128MB .mp4|.avi|.wmv|.mkv|.mpg|.rmvb|.iso|.bt.xltd "@
}

/// The query sent to the search service for `keyword`.
pub fn search_query(keyword: &str) -> (r: String)
    ensures
        r@ == video_filter() + keyword@,
{
    let mut r = String::from_str("size:>128MB .mp4|.avi|.wmv|.mkv|.mpg|.rmvb|.iso|.bt.xltd ");
    r.append(keyword);
    r
}

} // verus!
