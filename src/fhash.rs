use vstd::prelude::*;
use vstd::string::*;

verus! {

/// Bytes read from each sampled window: 1 MiB.
pub const SAMPLE_SIZE: u64 = 1048576;

/// Offset of the last window: the file size less one sample, or 0.
pub open spec fn end_offset(size: nat, sample_size: nat) -> nat {
    if size > sample_size {
        (size - sample_size) as nat
    } else {
        0
    }
}

/// Offset of the middle window: half the end offset.
pub open spec fn mid_offset(size: nat, sample_size: nat) -> nat {
    end_offset(size, sample_size) / 2
}

/// Offsets of the windows that are read, in order: the start; the middle and
/// the end unless the file fits in one sample; the end only where it differs
/// from the middle.
pub open spec fn window_offsets(size: nat, sample_size: nat) -> Seq<nat> {
    let m = mid_offset(size, sample_size);
    let e = end_offset(size, sample_size);
    seq![0nat] + (if e != 0 {
        seq![m]
    } else {
        Seq::empty()
    }) + (if e != m {
        seq![e]
    } else {
        Seq::empty()
    })
}

/// Bytes available to a window at `offset`: one sample, or what is left of the file.
pub open spec fn window_len(size: nat, sample_size: nat, offset: nat) -> nat {
    if size < offset + sample_size {
        (size - offset) as nat
    } else {
        sample_size
    }
}

/// The windows that are read, as (offset, length) pairs.
pub open spec fn sample_windows(size: nat, sample_size: nat) -> Seq<(nat, nat)> {
    window_offsets(size, sample_size).map_values(|o: nat| (o, window_len(size, sample_size, o)))
}

/// The bytes of `content` under the windows `ws`, one window after another.
pub open spec fn gather(content: Seq<u8>, ws: Seq<(nat, nat)>) -> Seq<u8>
    decreases ws.len(),
{
    if ws.len() == 0 {
        Seq::empty()
    } else {
        let w = ws.last();
        gather(content, ws.drop_last()) + content.subrange(w.0 as int, (w.0 + w.1) as int)
    }
}

/// The bytes that a file's fingerprint is computed from.
pub open spec fn sampled_bytes(content: Seq<u8>, sample_size: nat) -> Seq<u8> {
    gather(content, sample_windows(content.len(), sample_size))
}

/// Byte strings joined in order.
pub open spec fn concat_all(parts: Seq<Seq<u8>>) -> Seq<u8>
    decreases parts.len(),
{
    if parts.len() == 0 {
        Seq::empty()
    } else {
        concat_all(parts.drop_last()) + parts.last()
    }
}

pub open spec fn digit_char(d: nat) -> char {
    if d == 0 {
        '0'
    } else if d == 1 {
        '1'
    } else if d == 2 {
        '2'
    } else if d == 3 {
        '3'
    } else if d == 4 {
        '4'
    } else if d == 5 {
        '5'
    } else if d == 6 {
        '6'
    } else if d == 7 {
        '7'
    } else if d == 8 {
        '8'
    } else {
        '9'
    }
}

/// Decimal notation of `n`, without leading zeros.
pub open spec fn decimal(n: nat) -> Seq<char>
    decreases n,
{
    if n < 10 {
        seq![digit_char(n)]
    } else {
        decimal(n / 10).push(digit_char(n % 10))
    }
}

/// The 128-bit XXH3 digest (default secret, seed 0) of a byte string.
pub uninterp spec fn xxh3_128_of(data: Seq<u8>) -> u128;

/// Relies on xxhash_rust::xxh3::xxh3_128: the digest depends on the bytes alone.
#[verifier::external_body]
fn xxh3_128(data: &[u8]) -> (r: u128)
    ensures
        r == xxh3_128_of(data@),
{
    xxhash_rust::xxh3::xxh3_128(data)
}

/// The fingerprint of a byte string that was gathered from a file's samples.
pub open spec fn fingerprint_of(data: Seq<u8>) -> Seq<char> {
    decimal(xxh3_128_of(data) as nat)
}

/// The fingerprint of a file whose bytes are `content`.
pub open spec fn content_fingerprint(content: Seq<u8>, sample_size: nat) -> Seq<char> {
    fingerprint_of(sampled_bytes(content, sample_size))
}

/// One window to read: `len` bytes from `offset`.
pub struct SampleWindow {
    pub offset: u64,
    pub len: u64,
}

impl SampleWindow {
    pub open spec fn view(self) -> (nat, nat) {
        (self.offset as nat, self.len as nat)
    }
}

/// The windows to read from a file of `file_size` bytes: the start, middle and
/// end windows, never past the end of the file.
pub fn sample_plan(file_size: u64, sample_size: u64) -> (r: Vec<SampleWindow>)
    ensures
        r@.len() == sample_windows(file_size as nat, sample_size as nat).len(),
        forall|i: int|
            0 <= i < r@.len() ==> #[trigger] r@[i].view() == sample_windows(
                file_size as nat,
                sample_size as nat,
            )[i],
{
    let ghost size = file_size as nat;
    let ghost ss = sample_size as nat;
    let end: u64 = file_size.saturating_sub(sample_size);
    let mid: u64 = end / 2;
    let mut r: Vec<SampleWindow> = Vec::new();
    r.push(window(file_size, sample_size, 0));
    if end != 0 {
        r.push(window(file_size, sample_size, mid));
    }
    if end != mid {
        r.push(window(file_size, sample_size, end));
    }
    assert(r@.map_values(|w: SampleWindow| w.view()) =~= sample_windows(size, ss));
    proof {
        assert forall|i: int| 0 <= i < r@.len() implies #[trigger] r@[i].view() == sample_windows(
            size,
            ss,
        )[i] by {
            assert(r@.map_values(|w: SampleWindow| w.view())[i] == r@[i].view());
        }
    }
    r
}

fn window(file_size: u64, sample_size: u64, offset: u64) -> (r: SampleWindow)
    requires
        offset <= file_size,
    ensures
        r.view() == (offset as nat, window_len(file_size as nat, sample_size as nat, offset as nat)),
{
    let rest = file_size - offset;
    let len = if rest < sample_size {
        rest
    } else {
        sample_size
    };
    SampleWindow { offset, len }
}

fn digit_str(d: u128) -> (r: &'static str)
    requires
        d < 10,
    ensures
        r@ == seq![digit_char(d as nat)],
{
    proof {
        reveal_strlit("0");
        reveal_strlit("1");
        reveal_strlit("2");
        reveal_strlit("3");
        reveal_strlit("4");
        reveal_strlit("5");
        reveal_strlit("6");
        reveal_strlit("7");
        reveal_strlit("8");
        reveal_strlit("9");
    }
    if d == 0 {
        "0"
    } else if d == 1 {
        "1"
    } else if d == 2 {
        "2"
    } else if d == 3 {
        "3"
    } else if d == 4 {
        "4"
    } else if d == 5 {
        "5"
    } else if d == 6 {
        "6"
    } else if d == 7 {
        "7"
    } else if d == 8 {
        "8"
    } else {
        "9"
    }
}

fn append_decimal(s: &mut String, n: u128)
    ensures
        final(s)@ == old(s)@ + decimal(n as nat),
    decreases n,
{
    if n >= 10 {
        append_decimal(s, n / 10);
    }
    s.append(digit_str(n % 10));
    assert(final(s)@ =~= old(s)@ + decimal(n as nat));
}

/// The textual form of a 128-bit digest: its decimal notation.
pub fn digest_to_fingerprint(digest: u128) -> (r: String)
    ensures
        r@ == decimal(digest as nat),
{
    let mut r = String::new();
    append_decimal(&mut r, digest);
    assert(r@ =~= decimal(digest as nat));
    r
}

/// The contents of a sequence of byte vectors.
pub open spec fn views(vs: Seq<Vec<u8>>) -> Seq<Seq<u8>> {
    vs.map_values(|v: Vec<u8>| v@)
}

/// `parts` holds, window by window, the bytes of `content` under `ws`.
pub open spec fn windows_of(content: Seq<u8>, ws: Seq<(nat, nat)>, parts: Seq<Seq<u8>>) -> bool {
    &&& parts.len() == ws.len()
    &&& forall|i: int|
        0 <= i < ws.len() ==> #[trigger] parts[i] == content.subrange(
            ws[i].0 as int,
            (ws[i].0 + ws[i].1) as int,
        )
}

/// Window contents, joined, are the gathered bytes.
pub proof fn lemma_concat_windows(content: Seq<u8>, ws: Seq<(nat, nat)>, parts: Seq<Seq<u8>>)
    requires
        windows_of(content, ws, parts),
    ensures
        concat_all(parts) == gather(content, ws),
    decreases ws.len(),
{
    if ws.len() > 0 {
        let n = ws.len() - 1;
        assert(parts[n] == content.subrange(ws[n].0 as int, (ws[n].0 + ws[n].1) as int));
        lemma_concat_windows(content, ws.drop_last(), parts.drop_last());
    }
}

fn concat_samples(samples: &Vec<Vec<u8>>) -> (r: Vec<u8>)
    ensures
        r@ == concat_all(views(samples@)),
{
    let ghost vs = views(samples@);
    let mut r: Vec<u8> = Vec::new();
    let mut i: usize = 0;
    assert(vs.take(0) =~= Seq::<Seq<u8>>::empty());
    while i < samples.len()
        invariant
            i <= samples@.len(),
            vs == views(samples@),
            r@ == concat_all(vs.take(i as int)),
        decreases samples@.len() - i,
    {
        let part = &samples[i];
        let ghost before = r@;
        let mut j: usize = 0;
        while j < part.len()
            invariant
                j <= part@.len(),
                r@ == before + part@.take(j as int),
            decreases part@.len() - j,
        {
            r.push(part[j]);
            assert(r@ =~= before + part@.take(j + 1));
            j = j + 1;
        }
        assert(vs.take(i + 1).drop_last() =~= vs.take(i as int));
        assert(part@.take(j as int) =~= part@);
        assert(vs.take(i + 1).last() == part@);
        i = i + 1;
    }
    assert(vs.take(i as int) =~= vs);
    r
}

/// The fingerprint of a file, from the samples read out of it in plan order.
pub fn fingerprint_of_samples(samples: &Vec<Vec<u8>>) -> (r: String)
    ensures
        r@ == fingerprint_of(concat_all(views(samples@))),
{
    let data = concat_samples(samples);
    let digest = xxh3_128(data.as_slice());
    digest_to_fingerprint(digest)
}

fn copy_window(content: &Vec<u8>, w: &SampleWindow) -> (r: Vec<u8>)
    requires
        w.offset + w.len <= content@.len(),
    ensures
        r@ == content@.subrange(w.offset as int, (w.offset + w.len) as int),
{
    let mut r: Vec<u8> = Vec::new();
    let n = content.len();
    let start = w.offset as usize;
    let len = w.len as usize;
    let mut k: usize = 0;
    while k < len
        invariant
            start == w.offset,
            len == w.len,
            n == content@.len(),
            w.offset + w.len <= content@.len(),
            k <= w.len,
            r@ == content@.subrange(start as int, start + k),
        decreases w.len - k,
    {
        r.push(content[start + k]);
        assert(r@ =~= content@.subrange(start as int, start + k + 1));
        k = k + 1;
    }
    r
}

/// The fingerprint of a file whose bytes are `content`, read in windows of
/// `sample_size` bytes.
pub fn fingerprint_of_content(content: &Vec<u8>, sample_size: u64) -> (r: String)
    ensures
        r@ == content_fingerprint(content@, sample_size as nat),
{
    let ghost ws = sample_windows(content@.len(), sample_size as nat);
    let plan = sample_plan(content.len() as u64, sample_size);
    let mut samples: Vec<Vec<u8>> = Vec::new();
    let mut i: usize = 0;
    while i < plan.len()
        invariant
            i <= plan@.len() == ws.len(),
            ws == sample_windows(content@.len(), sample_size as nat),
            forall|k: int| 0 <= k < plan@.len() ==> #[trigger] plan@[k].view() == ws[k],
            windows_of(content@, ws.take(i as int), views(samples@)),
        decreases plan@.len() - i,
    {
        proof {
            let o = window_offsets(content@.len(), sample_size as nat);
            assert(ws[i as int] == (o[i as int], window_len(content@.len(), sample_size as nat, o[i as int])));
            assert(plan@[i as int].view() == ws[i as int]);
        }
        let part = copy_window(content, &plan[i]);
        let ghost prev = samples@;
        samples.push(part);
        proof {
            assert(samples@[i as int]@ == part@);
            assert(forall|k: int| 0 <= k < i ==> samples@[k] == prev[k]);
            let ws1 = ws.take(i + 1);
            let ps = views(samples@);
            assert forall|k: int| 0 <= k < ws1.len() implies #[trigger] ps[k] == content@.subrange(
                ws1[k].0 as int,
                (ws1[k].0 + ws1[k].1) as int,
            ) by {
                if k < i {
                    assert(ws.take(i as int)[k] == ws1[k]);
                    assert(views(prev)[k] == ps[k]);
                } else {
                    assert(ws1[k] == plan@[k].view());
                }
            }
        }
        i = i + 1;
    }
    proof {
        assert(ws.take(i as int) =~= ws);
        lemma_concat_windows(content@, ws, views(samples@));
    }
    fingerprint_of_samples(&samples)
}

proof fn lemma_gather_agree(a: Seq<u8>, b: Seq<u8>, ws: Seq<(nat, nat)>)
    requires
        forall|i: int|
            0 <= i < ws.len() ==> a.subrange(ws[i].0 as int, (ws[i].0 + ws[i].1) as int)
                == #[trigger] b.subrange(ws[i].0 as int, (ws[i].0 + ws[i].1) as int),
    ensures
        gather(a, ws) == gather(b, ws),
    decreases ws.len(),
{
    if ws.len() > 0 {
        let n = ws.len() - 1;
        assert(a.subrange(ws[n].0 as int, (ws[n].0 + ws[n].1) as int) == b.subrange(
            ws[n].0 as int,
            (ws[n].0 + ws[n].1) as int,
        ));
        lemma_gather_agree(a, b, ws.drop_last());
    }
}

/// Every window lies inside the file; windows come in order of their offsets;
/// the end window is read only where it does not coincide with the middle one,
/// and a file that fits in one sample is read in a single window.
pub proof fn lemma_windows_in_bounds(size: nat, sample_size: nat)
    ensures
        forall|i: int|
            0 <= i < sample_windows(size, sample_size).len() ==> {
                let w = #[trigger] sample_windows(size, sample_size)[i];
                w.0 + w.1 <= size
            },
        forall|i: int, j: int|
            0 <= i < j < sample_windows(size, sample_size).len() ==> (#[trigger] sample_windows(
                size,
                sample_size,
            )[i]).0 <= (#[trigger] sample_windows(size, sample_size)[j]).0,
        mid_offset(size, sample_size) == end_offset(size, sample_size) ==> sample_windows(
            size,
            sample_size,
        ).len() <= 2,
        sample_windows(size, sample_size).len() == 3 ==> sample_windows(size, sample_size)[1].0
            == mid_offset(size, sample_size) && sample_windows(size, sample_size)[2].0 == end_offset(
            size,
            sample_size,
        ) && mid_offset(size, sample_size) != end_offset(size, sample_size),
        size <= sample_size ==> sample_windows(size, sample_size).len() == 1,
{
}

/// A file no larger than one sample is read once, whole.
pub proof fn lemma_small_file_single_window(content: Seq<u8>, sample_size: nat)
    requires
        content.len() <= sample_size,
    ensures
        sample_windows(content.len(), sample_size) == seq![(0nat, content.len())],
        sampled_bytes(content, sample_size) == content,
{
    let ws = sample_windows(content.len(), sample_size);
    assert(window_offsets(content.len(), sample_size) =~= seq![0nat]);
    assert(ws =~= seq![(0nat, content.len())]);
    assert(ws.drop_last() =~= Seq::<(nat, nat)>::empty());
    assert(content.subrange(0, content.len() as int) =~= content);
    assert(gather(content, ws.drop_last()) == Seq::<u8>::empty());
    assert(ws.last() == (0nat, content.len()));
    assert(gather(content, ws) == gather(content, ws.drop_last()) + content.subrange(
        0,
        content.len() as int,
    ));
    assert(gather(content, ws) =~= content);
}

/// Two files of the same length that agree on every sampled window have the
/// same fingerprint; in particular byte-identical files do, whatever their paths.
pub proof fn lemma_fingerprint_determinism(a: Seq<u8>, b: Seq<u8>, sample_size: nat)
    requires
        a.len() == b.len(),
        forall|i: int|
            0 <= i < sample_windows(a.len(), sample_size).len() ==> {
                let w = #[trigger] sample_windows(a.len(), sample_size)[i];
                a.subrange(w.0 as int, (w.0 + w.1) as int) == b.subrange(
                    w.0 as int,
                    (w.0 + w.1) as int,
                )
            },
    ensures
        content_fingerprint(a, sample_size) == content_fingerprint(b, sample_size),
{
    let ws = sample_windows(a.len(), sample_size);
    assert forall|i: int| 0 <= i < ws.len() implies a.subrange(
        ws[i].0 as int,
        (ws[i].0 + ws[i].1) as int,
    ) == #[trigger] b.subrange(ws[i].0 as int, (ws[i].0 + ws[i].1) as int) by {}
    lemma_gather_agree(a, b, ws);
}

/// Reading the planned windows of a file and fingerprinting them gives the
/// file's fingerprint.
pub proof fn lemma_samples_give_content_fingerprint(
    content: Seq<u8>,
    sample_size: nat,
    samples: Seq<Vec<u8>>,
)
    requires
        windows_of(content, sample_windows(content.len(), sample_size), views(samples)),
    ensures
        fingerprint_of(concat_all(views(samples))) == content_fingerprint(content, sample_size),
{
    lemma_concat_windows(content, sample_windows(content.len(), sample_size), views(samples));
}

} // verus!
