use videoinfo::thumbnail::{
    frame_count_from_probe, gen_file_dir_path, gen_out_gif_path, gen_out_png_path, gif_args,
    keyframe_args, keyframes_complete, output_dir, parse_frame_number, pipeline_step, probe_args,
    PipelineAction, PipelineError, PipelineEvent, PipelineStep,
};

#[test]
fn artifact_paths() {
    assert_eq!(gen_file_dir_path("D:/video-data", &"movie".to_string()), "D:/video-data/movie");
    assert_eq!(gen_out_png_path("/out/movie"), "/out/movie/png");
    assert_eq!(gen_out_gif_path("/out/movie"), "/out/movie/gif");
    assert_eq!(output_dir("/out", "/videos/a.b.mkv"), "/out/a.b");
    assert_eq!(output_dir("/out", "/videos/README"), "/out/README");
}

#[test]
fn output_dir_depends_on_name_only() {
    assert_eq!(output_dir("/out", "/one/clip.mp4"), output_dir("/out", "/two/clip.mp4"));
    assert_ne!(output_dir("/out", "/one/clip.mp4"), output_dir("/out", "/one/other.mp4"));
}

#[test]
fn completeness_threshold() {
    assert!(!keyframes_complete(0));
    assert!(!keyframes_complete(20));
    assert!(keyframes_complete(21));
    assert!(keyframes_complete(25));
}

#[test]
fn pipeline_runs_both_tools_on_empty_directory() {
    let (s, a) = pipeline_step(PipelineStep::CheckKeyframes, PipelineEvent::KeyframeCount(0));
    assert_eq!(s, PipelineStep::Extracting);
    assert!(matches!(a, PipelineAction::RunExtraction));
    let ok = PipelineEvent::ToolExited { success: true, diagnostics: String::new() };
    let (s, a) = pipeline_step(s, ok);
    assert_eq!(s, PipelineStep::Encoding);
    assert!(matches!(a, PipelineAction::RunEncoding));
    let ok = PipelineEvent::ToolExited { success: true, diagnostics: String::new() };
    let (s, a) = pipeline_step(s, ok);
    assert_eq!(s, PipelineStep::Done);
    assert!(matches!(a, PipelineAction::Finish));
}

#[test]
fn second_invocation_is_a_no_op() {
    // first run: extraction wrote 25 frames, then encoding
    let (s, _) = pipeline_step(PipelineStep::CheckKeyframes, PipelineEvent::KeyframeCount(0));
    let (s, _) = pipeline_step(s, PipelineEvent::ToolExited { success: true, diagnostics: String::new() });
    let (s, _) = pipeline_step(s, PipelineEvent::ToolExited { success: true, diagnostics: String::new() });
    assert_eq!(s, PipelineStep::Done);
    // second run on the same directory
    let (s, a) = pipeline_step(PipelineStep::CheckKeyframes, PipelineEvent::KeyframeCount(25));
    assert_eq!(s, PipelineStep::Done);
    assert!(matches!(a, PipelineAction::Finish));
    let (s, a) = pipeline_step(s, PipelineEvent::KeyframeCount(0));
    assert_eq!(s, PipelineStep::Done);
    assert!(matches!(a, PipelineAction::Ignore));
}

#[test]
fn tool_failures_carry_diagnostics() {
    let bad = PipelineEvent::ToolExited { success: false, diagnostics: "no decoder".to_string() };
    let (s, a) = pipeline_step(PipelineStep::Extracting, bad);
    assert_eq!(s, PipelineStep::Failed);
    assert!(matches!(a, PipelineAction::Fail(PipelineError::ExtractionFailed(ref d)) if d == "no decoder"));
    let bad = PipelineEvent::ToolExited { success: false, diagnostics: "disk full".to_string() };
    let (s, a) = pipeline_step(PipelineStep::Encoding, bad);
    assert_eq!(s, PipelineStep::Failed);
    assert!(matches!(a, PipelineAction::Fail(PipelineError::EncodingFailed(ref d)) if d == "disk full"));
}

#[test]
fn parse_numbers_like_from_str() {
    assert_eq!(parse_frame_number("123"), Some(123));
    assert_eq!(parse_frame_number("+7"), Some(7));
    assert_eq!(parse_frame_number("007"), Some(7));
    assert_eq!(parse_frame_number("4294967295"), Some(4294967295));
    assert_eq!(parse_frame_number("4294967296"), None);
    assert_eq!(parse_frame_number(""), None);
    assert_eq!(parse_frame_number("+"), None);
    assert_eq!(parse_frame_number("-1"), None);
    assert_eq!(parse_frame_number("12a"), None);
    for s in ["0", "99", "+5", "x", " 1", "99999999999"] {
        assert_eq!(parse_frame_number(s), s.parse::<u32>().ok());
    }
}

#[test]
fn probe_outcomes() {
    assert!(matches!(frame_count_from_probe(true, " 1500\r\n", String::new()), Ok(1500)));
    assert!(matches!(
        frame_count_from_probe(false, "", "boom".to_string()),
        Err(PipelineError::ProbeFailed(ref m)) if m == "boom"
    ));
    assert!(matches!(
        frame_count_from_probe(true, "N/A\n", String::new()),
        Err(PipelineError::ProbeFailed(ref m)) if m == "N/A\n"
    ));
}

#[test]
fn tool_arguments() {
    let p = probe_args("/v/a.mp4");
    assert_eq!(p.len(), 9);
    assert_eq!(p[5], "stream=nb_frames");
    assert_eq!(p[8], "/v/a.mp4");
    let k = keyframe_args("/v/a.mp4", "/out/a/png");
    assert_eq!(k.len(), 14);
    assert_eq!(k[5], "/v/a.mp4");
    assert_eq!(k[13], "/out/a/png/%04d.png");
    assert!(k[9].starts_with("select='not(mod(n\\,10))'"));
    let g = gif_args("/out/a");
    assert_eq!(g.len(), 10);
    assert_eq!(g[1], "/out/a/png/%04d.png");
    assert_eq!(g[3], "scale=320:-1:flags=lanczos,fps=3");
    assert_eq!(g[9], "/out/a/gif/0.gif");
}
