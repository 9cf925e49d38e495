use vstd::prelude::*;
use vstd::string::*;
use crate::model::{base_name, file_stem, names_file, FileInfo};

verus! {

/// `dir/name`.
pub open spec fn join_path(dir: Seq<char>, name: Seq<char>) -> Seq<char> {
    dir + seq!['/'] + name
}

/// The directory that holds a source file's artifacts: `output_path/filename`.
pub fn gen_file_dir_path(output_path: &str, filename: &String) -> (r: String)
    ensures
        r@ == join_path(output_path@, filename@),
{
    let mut r = String::from_str(output_path);
    r.append("/");
    r.append(filename.as_str());
    proof {
        reveal_strlit("/");
    }
    r
}

/// Where the keyframe images of an artifact directory go.
pub open spec fn png_dir(out_dir: Seq<char>) -> Seq<char> {
    join_path(out_dir, seq!['p', 'n', 'g'])
}

/// Where the animated preview of an artifact directory goes.
pub open spec fn gif_dir(out_dir: Seq<char>) -> Seq<char> {
    join_path(out_dir, seq!['g', 'i', 'f'])
}

pub fn gen_out_png_path(out_dir_path: &str) -> (r: String)
    ensures
        r@ == png_dir(out_dir_path@),
{
    let mut r = String::from_str(out_dir_path);
    r.append("/png");
    proof {
        reveal_strlit("/png");
    }
    assert(r@ =~= png_dir(out_dir_path@));
    r
}

pub fn gen_out_gif_path(out_dir_path: &str) -> (r: String)
    ensures
        r@ == gif_dir(out_dir_path@),
{
    let mut r = String::from_str(out_dir_path);
    r.append("/gif");
    proof {
        reveal_strlit("/gif");
    }
    assert(r@ =~= gif_dir(out_dir_path@));
    r
}


/// More keyframe images than this means the artifacts are already there.
pub const KEYFRAME_THRESHOLD: usize = 20;

/// Whether a keyframe directory with `count` entries needs no new generation.
pub fn keyframes_complete(count: usize) -> (r: bool)
    ensures
        r == (count > KEYFRAME_THRESHOLD),
{
    count > KEYFRAME_THRESHOLD
}

/// Why generation or probing failed; each carries the tool's diagnostics.
pub enum PipelineError {
    ProbeFailed(String),
    ExtractionFailed(String),
    EncodingFailed(String),
}

/// Where a run of the generation pipeline stands.
#[derive(PartialEq, Eq, Structural, Clone, Copy, Debug)]
pub enum PipelineStep {
    CheckKeyframes,
    Extracting,
    Encoding,
    Done,
    Failed,
}

/// What the surroundings report to the pipeline.
pub enum PipelineEvent {
    /// Entries found in the keyframe directory.
    KeyframeCount(usize),
    /// The external tool that was started has exited.
    ToolExited { success: bool, diagnostics: String },
}

/// What the pipeline asks the surroundings to do next.
pub enum PipelineAction {
    RunExtraction,
    RunEncoding,
    Finish,
    Fail(PipelineError),
    Ignore,
}

/// The pipeline's transition: keyframe extraction unless the directory is
/// complete, then preview encoding; a failed tool ends the run with its error.
/// Events that do not fit the current step change nothing.
pub open spec fn next_pipeline(step: PipelineStep, event: PipelineEvent) -> (PipelineStep, PipelineAction) {
    match (step, event) {
        (PipelineStep::CheckKeyframes, PipelineEvent::KeyframeCount(n)) => if n > KEYFRAME_THRESHOLD {
            (PipelineStep::Done, PipelineAction::Finish)
        } else {
            (PipelineStep::Extracting, PipelineAction::RunExtraction)
        },
        (PipelineStep::Extracting, PipelineEvent::ToolExited { success, diagnostics }) => if success {
            (PipelineStep::Encoding, PipelineAction::RunEncoding)
        } else {
            (PipelineStep::Failed, PipelineAction::Fail(PipelineError::ExtractionFailed(diagnostics)))
        },
        (PipelineStep::Encoding, PipelineEvent::ToolExited { success, diagnostics }) => if success {
            (PipelineStep::Done, PipelineAction::Finish)
        } else {
            (PipelineStep::Failed, PipelineAction::Fail(PipelineError::EncodingFailed(diagnostics)))
        },
        _ => (step, PipelineAction::Ignore),
    }
}

/// One step of the generation pipeline.
pub fn pipeline_step(step: PipelineStep, event: PipelineEvent) -> (r: (PipelineStep, PipelineAction))
    ensures
        r == next_pipeline(step, event),
{
    match step {
        PipelineStep::CheckKeyframes => match event {
            PipelineEvent::KeyframeCount(n) => if keyframes_complete(n) {
                (PipelineStep::Done, PipelineAction::Finish)
            } else {
                (PipelineStep::Extracting, PipelineAction::RunExtraction)
            },
            _ => (step, PipelineAction::Ignore),
        },
        PipelineStep::Extracting => match event {
            PipelineEvent::ToolExited { success, diagnostics } => if success {
                (PipelineStep::Encoding, PipelineAction::RunEncoding)
            } else {
                (PipelineStep::Failed, PipelineAction::Fail(PipelineError::ExtractionFailed(diagnostics)))
            },
            _ => (step, PipelineAction::Ignore),
        },
        PipelineStep::Encoding => match event {
            PipelineEvent::ToolExited { success, diagnostics } => if success {
                (PipelineStep::Done, PipelineAction::Finish)
            } else {
                (PipelineStep::Failed, PipelineAction::Fail(PipelineError::EncodingFailed(diagnostics)))
            },
            _ => (step, PipelineAction::Ignore),
        },
        _ => (step, PipelineAction::Ignore),
    }
}

/// How many external tools a run from `step` starts while `events` come in.
pub open spec fn tool_runs(step: PipelineStep, events: Seq<PipelineEvent>) -> nat
    decreases events.len(),
{
    if events.len() == 0 {
        0
    } else {
        let (next, action) = next_pipeline(step, events[0]);
        (if action is RunExtraction || action is RunEncoding {
            1nat
        } else {
            0nat
        }) + tool_runs(next, events.drop_first())
    }
}

proof fn lemma_done_runs_nothing(events: Seq<PipelineEvent>)
    ensures
        tool_runs(PipelineStep::Done, events) == 0,
    decreases events.len(),
{
    if events.len() > 0 {
        lemma_done_runs_nothing(events.drop_first());
    }
}

/// Generation is idempotent: once the keyframe directory holds more than the
/// threshold of entries, a new run finishes at once and starts no external
/// tool, whatever is reported to it afterwards.
pub proof fn lemma_pipeline_idempotent(count: usize, later: Seq<PipelineEvent>)
    requires
        count > KEYFRAME_THRESHOLD,
    ensures
        next_pipeline(PipelineStep::CheckKeyframes, PipelineEvent::KeyframeCount(count)) == (
        PipelineStep::Done,
        PipelineAction::Finish,
        ),
        tool_runs(PipelineStep::CheckKeyframes, seq![PipelineEvent::KeyframeCount(count)] + later)
            == 0,
{
    let events = seq![PipelineEvent::KeyframeCount(count)] + later;
    assert(events[0] == PipelineEvent::KeyframeCount(count));
    assert(events.drop_first() =~= later);
    lemma_done_runs_nothing(later);
}

/// White space as `char::is_whitespace` has it (the Unicode White_Space property).
pub open spec fn is_space(c: char) -> bool {
    ('\t' <= c <= '\r') || c == ' ' || c == '\u{85}' || c == '\u{a0}' || c == '\u{1680}' || (
    '\u{2000}' <= c <= '\u{200a}') || c == '\u{2028}' || c == '\u{2029}' || c == '\u{202f}' || c
        == '\u{205f}' || c == '\u{3000}'
}

pub open spec fn trim_start(s: Seq<char>) -> Seq<char>
    decreases s.len(),
{
    if s.len() > 0 && is_space(s[0]) {
        trim_start(s.drop_first())
    } else {
        s
    }
}

pub open spec fn trim_end(s: Seq<char>) -> Seq<char>
    decreases s.len(),
{
    if s.len() > 0 && is_space(s.last()) {
        trim_end(s.drop_last())
    } else {
        s
    }
}

/// `s` without leading and trailing white space.
pub open spec fn trim(s: Seq<char>) -> Seq<char> {
    trim_end(trim_start(s))
}

pub open spec fn is_digit(c: char) -> bool {
    '0' <= c <= '9'
}

/// Value of a string of decimal digits.
pub open spec fn digits_value(s: Seq<char>) -> nat
    decreases s.len(),
{
    if s.len() == 0 {
        0
    } else {
        digits_value(s.drop_last()) * 10 + (s.last() as u32 - '0' as u32) as nat
    }
}

/// The digits of an unsigned number: a leading `+` is dropped.
pub open spec fn unsigned_digits(s: Seq<char>) -> Seq<char> {
    if s.len() > 0 && s[0] == '+' {
        s.drop_first()
    } else {
        s
    }
}

/// What `u32`'s `from_str` gives: the value of one or more decimal digits,
/// optionally after a `+`, that fits in 32 bits.
pub open spec fn parse_u32(s: Seq<char>) -> Option<u32> {
    let d = unsigned_digits(s);
    if d.len() > 0 && (forall|i: int| 0 <= i < d.len() ==> is_digit(#[trigger] d[i]))
        && digits_value(d) <= u32::MAX {
        Some(digits_value(d) as u32)
    } else {
        None
    }
}

fn trimmed(s: &str) -> (r: &str)
    ensures
        r@ == trim(s@),
{
    let n = s.unicode_len();
    let mut lo: usize = 0;
    assert(s@.subrange(0, n as int) =~= s@);
    while lo < n && is_space_char(s.get_char(lo))
        invariant
            lo <= n == s@.len(),
            trim_start(s@) == trim_start(s@.subrange(lo as int, n as int)),
        decreases n - lo,
    {
        assert(s@.subrange(lo as int, n as int).drop_first() =~= s@.subrange(lo + 1, n as int));
        lo = lo + 1;
    }
    let t = s.substring_char(lo, n);
    assert(trim_start(s@) == t@);
    let m = t.unicode_len();
    let mut hi: usize = m;
    assert(t@.subrange(0, m as int) =~= t@);
    while hi > 0 && is_space_char(t.get_char(hi - 1))
        invariant
            hi <= m == t@.len(),
            trim_end(t@) == trim_end(t@.subrange(0, hi as int)),
        decreases hi,
    {
        assert(t@.subrange(0, hi as int).drop_last() =~= t@.subrange(0, hi - 1));
        hi = hi - 1;
    }
    t.substring_char(0, hi)
}

fn is_space_char(c: char) -> (r: bool)
    ensures
        r == is_space(c),
{
    ('\t' <= c && c <= '\r') || c == ' ' || c == '\u{85}' || c == '\u{a0}' || c == '\u{1680}' || (
    '\u{2000}' <= c && c <= '\u{200a}') || c == '\u{2028}' || c == '\u{2029}' || c == '\u{202f}'
        || c == '\u{205f}' || c == '\u{3000}'
}

proof fn lemma_digits_prefix(s: Seq<char>, k: int)
    requires
        0 <= k <= s.len(),
    ensures
        digits_value(s.take(k)) <= digits_value(s),
    decreases s.len(),
{
    if k < s.len() {
        assert(s.drop_last().take(k) =~= s.take(k));
        lemma_digits_prefix(s.drop_last(), k);
    } else {
        assert(s.take(k) =~= s);
    }
}

/// Parses a `u32` as `u32`'s `from_str` does.
pub fn parse_frame_number(s: &str) -> (r: Option<u32>)
    ensures
        r == parse_u32(s@),
{
    let n = s.unicode_len();
    let start: usize = if n > 0 && s.get_char(0) == '+' {
        1
    } else {
        0
    };
    let ghost d = unsigned_digits(s@);
    assert(d =~= s@.subrange(start as int, n as int));
    if start == n {
        return None;
    }
    let mut acc: u64 = 0;
    let mut i: usize = start;
    assert(d.take(0) =~= Seq::<char>::empty());
    while i < n
        invariant
            start <= i <= n == s@.len(),
            d == s@.subrange(start as int, n as int),
            d == unsigned_digits(s@),
            acc == digits_value(d.take(i - start)),
            acc <= u32::MAX,
            forall|k: int| 0 <= k < i - start ==> is_digit(#[trigger] d[k]),
        decreases n - i,
    {
        let c = s.get_char(i);
        if !('0' <= c && c <= '9') {
            assert(d[i - start] == c);
            assert(!is_digit(d[i - start]));
            return None;
        }
        assert(d.take(i - start + 1).drop_last() =~= d.take(i - start));
        assert(d.take(i - start + 1).last() == c);
        assert(digits_value(d.take(i - start + 1)) == acc * 10 + (c as u32 - '0' as u32) as nat);
        acc = acc * 10 + (c as u32 - '0' as u32) as u64;
        if acc > 4294967295 {
            proof {
                lemma_digits_prefix(d, i - start + 1);
            }
            return None;
        }
        i = i + 1;
    }
    assert(d.take(n - start) =~= d);
    Some(acc as u32)
}

/// The frame count that the probing tool reported: its exit status and its
/// output decide. A failed run gives its diagnostics; output that is not a
/// number gives the output.
pub fn frame_count_from_probe(success: bool, stdout: &str, stderr: String) -> (r: Result<
    u32,
    PipelineError,
>)
    ensures
        !success ==> r == Err::<u32, PipelineError>(PipelineError::ProbeFailed(stderr)),
        success && parse_u32(trim(stdout@)) is Some ==> r == Ok::<u32, PipelineError>(
            parse_u32(trim(stdout@))->0,
        ),
        success && parse_u32(trim(stdout@)) is None ==> (r matches Err(
            PipelineError::ProbeFailed(m),
        ) && m@ == stdout@),
{
    if !success {
        return Err(PipelineError::ProbeFailed(stderr));
    }
    match parse_frame_number(trimmed(stdout)) {
        Some(n) => Ok(n),
        None => Err(PipelineError::ProbeFailed(String::from_str(stdout))),
    }
}

/// The artifact directory of the file at `file_path`, under `output_root`.
pub open spec fn artifact_dir(output_root: Seq<char>, file_path: Seq<char>) -> Seq<char> {
    join_path(output_root, file_stem(file_path))
}

/// The artifact directory of the file at `file_path`: `output_root/<file name
/// without its final extension>`.
pub fn output_dir(output_root: &str, file_path: &str) -> (r: String)
    requires
        names_file(file_path@),
    ensures
        r@ == artifact_dir(output_root@, file_path@),
{
    let stem = FileInfo::obtain_filename(file_path);
    gen_file_dir_path(output_root, &stem)
}

/// The artifact directory depends on the file's name alone: two files with
/// the same name in different directories share one.
pub proof fn lemma_output_dir_by_name(output_root: Seq<char>, a: Seq<char>, b: Seq<char>)
    requires
        base_name(a) == base_name(b),
    ensures
        artifact_dir(output_root, a) == artifact_dir(output_root, b),
{
}

/// The contents of a list of strings.
pub open spec fn arg_views(v: Seq<String>) -> Seq<Seq<char>> {
    v.map_values(|s: String| s@)
}

fn push_arg(v: &mut Vec<String>, s: &str)
    ensures
        arg_views(final(v)@) == arg_views(old(v)@).push(s@),
{
    v.push(String::from_str(s));
    assert(arg_views(final(v)@) =~= arg_views(old(v)@).push(s@));
}

/// The probing tool's arguments: the frame count of the first video stream of
/// `file_path`, printed alone.
pub open spec fn probe_args_of(file_path: Seq<char>) -> Seq<Seq<char>> {
    seq![
        "-v"@,
        "error"@,
        "-select_streams"@,
        "v:0"@,
        "-show_entries"@,
        "stream=nb_frames"@,
        "-of"@,
        "default=noprint_wrappers=1:nokey=1"@,
        file_path,
    ]
}

pub fn probe_args(file_path: &str) -> (r: Vec<String>)
    ensures
        arg_views(r@) == probe_args_of(file_path@),
{
    let mut v: Vec<String> = Vec::new();
    assert(arg_views(v@) =~= Seq::<Seq<char>>::empty());
    push_arg(&mut v, "-v");
    push_arg(&mut v, "error");
    push_arg(&mut v, "-select_streams");
    push_arg(&mut v, "v:0");
    push_arg(&mut v, "-show_entries");
    push_arg(&mut v, "stream=nb_frames");
    push_arg(&mut v, "-of");
    push_arg(&mut v, "default=noprint_wrappers=1:nokey=1");
    push_arg(&mut v, file_path);
    assert(arg_views(v@) =~= probe_args_of(file_path@));
    v
}

/// The filter of keyframe extraction: every tenth frame, near-black frames
/// dropped, scaled to 320 pixels wide.
pub open spec fn keyframe_filter() -> Seq<char> {
    "select='not(mod(n\\,10))',blackframe=0,metadata=select:key=lavfi.blackframe.pblack:value=70:function=less,scale=320:-1:force_original_aspect_ratio=decrease"@
}

/// The extraction tool's arguments: keyframes of `file_path` decoded on the
/// GPU, filtered, written as `png_path/0001.png`, `png_path/0002.png`, ...
pub open spec fn keyframe_args_of(file_path: Seq<char>, png_path: Seq<char>) -> Seq<Seq<char>> {
    seq![
        "-hwaccel"@,
        "cuda"@,
        "-skip_frame"@,
        "nokey"@,
        "-i"@,
        file_path,
        "-fps_mode"@,
        "vfr"@,
        "-vf"@,
        keyframe_filter(),
        "-q:v"@,
        "1"@,
        "-y"@,
        png_path + "/%04d.png"@,
    ]
}

pub fn keyframe_args(file_path: &str, png_path: &str) -> (r: Vec<String>)
    ensures
        arg_views(r@) == keyframe_args_of(file_path@, png_path@),
{
    let mut v: Vec<String> = Vec::new();
    assert(arg_views(v@) =~= Seq::<Seq<char>>::empty());
    push_arg(&mut v, "-hwaccel");
    push_arg(&mut v, "cuda");
    push_arg(&mut v, "-skip_frame");
    push_arg(&mut v, "nokey");
    push_arg(&mut v, "-i");
    push_arg(&mut v, file_path);
    push_arg(&mut v, "-fps_mode");
    push_arg(&mut v, "vfr");
    push_arg(&mut v, "-vf");
    push_arg(
        &mut v,
        "select='not(mod(n\\,10))',blackframe=0,metadata=select:key=lavfi.blackframe.pblack:value=70:function=less,scale=320:-1:force_original_aspect_ratio=decrease",
    );
    push_arg(&mut v, "-q:v");
    push_arg(&mut v, "1");
    push_arg(&mut v, "-y");
    let mut out = String::from_str(png_path);
    out.append("/%04d.png");
    push_arg(&mut v, out.as_str());
    assert(arg_views(v@) =~= keyframe_args_of(file_path@, png_path@));
    v
}

/// The encoding tool's arguments: the numbered keyframes of `out_dir` at 3
/// frames per second, 320 pixels wide with Lanczos scaling, as a looping
/// `out_dir/gif/0.gif`.
pub open spec fn gif_args_of(out_dir: Seq<char>) -> Seq<Seq<char>> {
    seq![
        "-i"@,
        out_dir + "/png/%04d.png"@,
        "-vf"@,
        "scale=320:-1:flags=lanczos,fps=3"@,
        "-c:v"@,
        "gif"@,
        "-loop"@,
        "0"@,
        "-y"@,
        gif_dir(out_dir) + "/0.gif"@,
    ]
}

pub fn gif_args(out_dir: &str) -> (r: Vec<String>)
    ensures
        arg_views(r@) == gif_args_of(out_dir@),
{
    let mut v: Vec<String> = Vec::new();
    assert(arg_views(v@) =~= Seq::<Seq<char>>::empty());
    push_arg(&mut v, "-i");
    let mut frames = String::from_str(out_dir);
    frames.append("/png/%04d.png");
    push_arg(&mut v, frames.as_str());
    push_arg(&mut v, "-vf");
    push_arg(&mut v, "scale=320:-1:flags=lanczos,fps=3");
    push_arg(&mut v, "-c:v");
    push_arg(&mut v, "gif");
    push_arg(&mut v, "-loop");
    push_arg(&mut v, "0");
    push_arg(&mut v, "-y");
    let mut out = gen_out_gif_path(out_dir);
    out.append("/0.gif");
    push_arg(&mut v, out.as_str());
    assert(arg_views(v@) =~= gif_args_of(out_dir@));
    v
}

} // verus!
