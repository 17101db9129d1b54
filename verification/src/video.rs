//! Probing, previewing and cutting videos: the arguments handed to the
//! transcoder and the progress lines it prints.

use vstd::prelude::*;
use vstd::string::StringExecFns;
use crate::text::{has_prefix, str_strip_prefix, texts};

verus! {

fn push_text(args: &mut Vec<String>, text: &str)
    ensures
        final(args)@.len() == old(args)@.len() + 1,
        texts(final(args)@) == texts(old(args)@).push(text@),
{
    args.push(String::from_str(text));
    assert(texts(args@) =~= texts(old(args)@).push(text@));
}

/// The arguments that make the probe print the duration of a file in seconds.
pub open spec fn duration_probe_args_text(path: Seq<char>) -> Seq<Seq<char>> {
    seq![
        "-v"@,
        "error"@,
        "-show_entries"@,
        "format=duration"@,
        "-of"@,
        "default=noprint_wrappers=1:nokey=1"@,
        path,
    ]
}

/// Builds the arguments that make the probe print the duration of a file.
pub fn duration_probe_args(path: &str) -> (args: Vec<String>)
    ensures
        texts(args@) == duration_probe_args_text(path@),
{
    let mut args: Vec<String> = Vec::new();
    assert(texts(args@) =~= Seq::<Seq<char>>::empty());
    push_text(&mut args, "-v");
    push_text(&mut args, "error");
    push_text(&mut args, "-show_entries");
    push_text(&mut args, "format=duration");
    push_text(&mut args, "-of");
    push_text(&mut args, "default=noprint_wrappers=1:nokey=1");
    push_text(&mut args, path);
    assert(texts(args@) =~= duration_probe_args_text(path@));
    args
}

/// The arguments that make the probe print what is asked of the first video
/// stream of a file in the given form.
pub open spec fn stream_probe_args_text(entries: Seq<char>, form: Seq<char>, path: Seq<char>) -> Seq<
    Seq<char>,
> {
    seq!["-v"@, "error"@, "-select_streams"@, "v:0"@, "-show_entries"@, entries, "-of"@, form, path]
}

fn stream_probe_args(entries: &str, form: &str, path: &str) -> (args: Vec<String>)
    ensures
        texts(args@) == stream_probe_args_text(entries@, form@, path@),
{
    let mut args: Vec<String> = Vec::new();
    assert(texts(args@) =~= Seq::<Seq<char>>::empty());
    push_text(&mut args, "-v");
    push_text(&mut args, "error");
    push_text(&mut args, "-select_streams");
    push_text(&mut args, "v:0");
    push_text(&mut args, "-show_entries");
    push_text(&mut args, entries);
    push_text(&mut args, "-of");
    push_text(&mut args, form);
    push_text(&mut args, path);
    assert(texts(args@) =~= stream_probe_args_text(entries@, form@, path@));
    args
}

/// Builds the arguments that make the probe print width, height and frame rate
/// of a video, separated by commas.
pub fn video_probe_args(path: &str) -> (args: Vec<String>)
    ensures
        texts(args@) == stream_probe_args_text("stream=width,height,r_frame_rate"@, "csv=p=0"@, path@),
{
    stream_probe_args("stream=width,height,r_frame_rate", "csv=p=0", path)
}

/// Builds the arguments that make the probe print width and height of an
/// image, separated by `x`.
pub fn image_probe_args(path: &str) -> (args: Vec<String>)
    ensures
        texts(args@) == stream_probe_args_text("stream=width,height"@, "csv=p=0:s=x"@, path@),
{
    stream_probe_args("stream=width,height", "csv=p=0:s=x", path)
}

/// The arguments that write the frame at `time` of a video to `output`.
pub open spec fn preview_args_text(time: Seq<char>, input: Seq<char>, output: Seq<char>) -> Seq<Seq<char>> {
    seq!["-y"@, "-ss"@, time, "-i"@, input, "-vframes"@, "1"@, "-q:v"@, "2"@, output]
}

/// Builds the arguments that write the frame at `time`, given as text in
/// seconds, to `output`.
pub fn preview_args(time: &str, input: &str, output: &str) -> (args: Vec<String>)
    ensures
        texts(args@) == preview_args_text(time@, input@, output@),
{
    let mut args: Vec<String> = Vec::new();
    assert(texts(args@) =~= Seq::<Seq<char>>::empty());
    push_text(&mut args, "-y");
    push_text(&mut args, "-ss");
    push_text(&mut args, time);
    push_text(&mut args, "-i");
    push_text(&mut args, input);
    push_text(&mut args, "-vframes");
    push_text(&mut args, "1");
    push_text(&mut args, "-q:v");
    push_text(&mut args, "2");
    push_text(&mut args, output);
    assert(texts(args@) =~= preview_args_text(time@, input@, output@));
    args
}

/// The arguments of a cut without re-encoding: seek, copy the streams for the
/// duration.
pub open spec fn fast_cut_args_text(
    start: Seq<char>,
    input: Seq<char>,
    duration: Seq<char>,
    output: Seq<char>,
) -> Seq<Seq<char>> {
    seq![
        "-y"@,
        "-ss"@,
        start,
        "-i"@,
        input,
        "-t"@,
        duration,
        "-c"@,
        "copy"@,
        "-avoid_negative_ts"@,
        "make_zero"@,
        output,
    ]
}

/// Builds the arguments of a cut without re-encoding; start and duration are
/// given as text in seconds.
pub fn fast_cut_args(start: &str, input: &str, duration: &str, output: &str) -> (args: Vec<String>)
    ensures
        texts(args@) == fast_cut_args_text(start@, input@, duration@, output@),
{
    let mut args: Vec<String> = Vec::new();
    assert(texts(args@) =~= Seq::<Seq<char>>::empty());
    push_text(&mut args, "-y");
    push_text(&mut args, "-ss");
    push_text(&mut args, start);
    push_text(&mut args, "-i");
    push_text(&mut args, input);
    push_text(&mut args, "-t");
    push_text(&mut args, duration);
    push_text(&mut args, "-c");
    push_text(&mut args, "copy");
    push_text(&mut args, "-avoid_negative_ts");
    push_text(&mut args, "make_zero");
    push_text(&mut args, output);
    assert(texts(args@) =~= fast_cut_args_text(start@, input@, duration@, output@));
    args
}

/// The arguments of a frame-exact cut: seek, re-encode for the duration, print
/// progress on standard output.
pub open spec fn precise_cut_args_text(
    start: Seq<char>,
    input: Seq<char>,
    duration: Seq<char>,
    output: Seq<char>,
) -> Seq<Seq<char>> {
    seq![
        "-y"@,
        "-ss"@,
        start,
        "-i"@,
        input,
        "-t"@,
        duration,
        "-c:v"@,
        "libx264"@,
        "-crf"@,
        "23"@,
        "-preset"@,
        "veryfast"@,
        "-c:a"@,
        "aac"@,
        "-b:a"@,
        "128k"@,
        "-progress"@,
        "pipe:1"@,
        output,
    ]
}

/// Builds the arguments of a frame-exact cut; start and duration are given as
/// text in seconds.
pub fn precise_cut_args(start: &str, input: &str, duration: &str, output: &str) -> (args: Vec<String>)
    ensures
        texts(args@) == precise_cut_args_text(start@, input@, duration@, output@),
{
    let mut args: Vec<String> = Vec::new();
    assert(texts(args@) =~= Seq::<Seq<char>>::empty());
    push_text(&mut args, "-y");
    push_text(&mut args, "-ss");
    push_text(&mut args, start);
    push_text(&mut args, "-i");
    push_text(&mut args, input);
    push_text(&mut args, "-t");
    push_text(&mut args, duration);
    push_text(&mut args, "-c:v");
    push_text(&mut args, "libx264");
    push_text(&mut args, "-crf");
    push_text(&mut args, "23");
    push_text(&mut args, "-preset");
    push_text(&mut args, "veryfast");
    push_text(&mut args, "-c:a");
    push_text(&mut args, "aac");
    push_text(&mut args, "-b:a");
    push_text(&mut args, "128k");
    push_text(&mut args, "-progress");
    push_text(&mut args, "pipe:1");
    push_text(&mut args, output);
    assert(texts(args@) =~= precise_cut_args_text(start@, input@, duration@, output@));
    args
}

/// What a finished cut reports: the output path where the transcoder
/// succeeded, the failure message otherwise.
pub fn cut_outcome(succeeded: bool, output: String) -> (outcome: Result<String, String>)
    ensures
        succeeded ==> outcome is Ok && outcome->Ok_0@ == output@,
        !succeeded ==> outcome is Err && outcome->Err_0@ == "视频截取失败"@,
{
    if succeeded {
        Ok(output)
    } else {
        Err(String::from_str("视频截取失败"))
    }
}

/// How a progress line of the transcoder gives the time reached.
#[derive(Clone, Copy, PartialEq, Eq, Debug, Structural)]
pub enum TimeField {
    /// A whole number of microseconds.
    Microseconds,
    /// Hours, minutes and seconds separated by colons.
    Clock,
}

/// What follows `prefix` in `line`.
pub open spec fn after_prefix(line: Seq<char>, prefix: Seq<char>) -> Seq<char> {
    line.subrange(prefix.len() as int, line.len() as int)
}

/// The time that a progress line gives, if it gives one: the fields
/// `out_time_ms` and `out_time_us` both hold microseconds, the field
/// `out_time` holds a clock time.
pub open spec fn progress_time_of(line: Seq<char>) -> Option<(TimeField, Seq<char>)> {
    if has_prefix(line, "out_time_ms="@) {
        Some((TimeField::Microseconds, after_prefix(line, "out_time_ms="@)))
    } else if has_prefix(line, "out_time_us="@) {
        Some((TimeField::Microseconds, after_prefix(line, "out_time_us="@)))
    } else if has_prefix(line, "out_time="@) {
        Some((TimeField::Clock, after_prefix(line, "out_time="@)))
    } else {
        None
    }
}

/// Finds the time that a progress line of the transcoder gives.
pub fn progress_time<'a>(line: &'a str) -> (time: Option<(TimeField, &'a str)>)
    ensures
        match time {
            Some((field, text)) => progress_time_of(line@) == Some((field, text@)),
            None => progress_time_of(line@) is None,
        },
{
    match str_strip_prefix(line, "out_time_ms=") {
        Some(text) => {
            return Some((TimeField::Microseconds, text));
        },
        None => {},
    }
    match str_strip_prefix(line, "out_time_us=") {
        Some(text) => {
            return Some((TimeField::Microseconds, text));
        },
        None => {},
    }
    match str_strip_prefix(line, "out_time=") {
        Some(text) => Some((TimeField::Clock, text)),
        None => None,
    }
}

/// The clock time that a progress line gives in its field `out_time`, if it
/// has that field.
pub fn clock_time<'a>(line: &'a str) -> (time: Option<&'a str>)
    ensures
        has_prefix(line@, "out_time="@) ==> time is Some && time->0@ == after_prefix(line@, "out_time="@),
        !has_prefix(line@, "out_time="@) ==> time is None,
{
    str_strip_prefix(line, "out_time=")
}

} // verus!
