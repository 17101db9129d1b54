//! Converting a video to another format: the arguments handed to the
//! transcoder.

use vstd::prelude::*;
use vstd::string::StringExecFns;
use crate::text::{same_text, texts};

verus! {

/// The constant rate factor for a quality word: lower is better.
pub open spec fn crf_text(quality: Seq<char>) -> Seq<char> {
    if quality == "high"@ {
        "18"@
    } else if quality == "medium"@ {
        "23"@
    } else if quality == "low"@ {
        "28"@
    } else {
        "20"@
    }
}

/// The constant rate factor for a quality word.
pub fn crf_for_quality(quality: &str) -> (crf: &'static str)
    ensures
        crf@ == crf_text(quality@),
{
    if same_text(quality, "high") {
        "18"
    } else if same_text(quality, "medium") {
        "23"
    } else if same_text(quality, "low") {
        "28"
    } else {
        "20"
    }
}

/// The arguments that choose the codecs: an animated GIF is limited in frame
/// rate and width and has no sound; every other format is encoded as H.264
/// video with AAC sound.
pub open spec fn codec_args_text(format: Seq<char>, quality: Seq<char>) -> Seq<Seq<char>> {
    if format == "gif"@ {
        seq!["-vf"@, "fps=12,scale='min(480,iw)':-1:flags=lanczos"@, "-c:v"@, "gif"@, "-an"@]
    } else {
        seq![
            "-c:v"@,
            "libx264"@,
            "-crf"@,
            crf_text(quality),
            "-preset"@,
            "fast"@,
            "-pix_fmt"@,
            "yuv420p"@,
            "-c:a"@,
            "aac"@,
            "-b:a"@,
            "192k"@,
        ]
    }
}

/// The arguments of a conversion: overwrite, the input, all threads, the
/// codecs, progress on standard output, the output.
pub open spec fn convert_args_text(
    input: Seq<char>,
    output: Seq<char>,
    format: Seq<char>,
    quality: Seq<char>,
) -> Seq<Seq<char>> {
    seq!["-y"@, "-i"@, input, "-threads"@, "0"@] + codec_args_text(format, quality) + seq![
        "-progress"@,
        "pipe:1"@,
        output,
    ]
}

/// Builds the arguments of a conversion.
pub fn convert_args(input: &str, output: &str, format: &str, quality: &str) -> (args: Vec<String>)
    ensures
        texts(args@) == convert_args_text(input@, output@, format@, quality@),
{
    let mut args: Vec<String> = Vec::new();
    args.push(String::from_str("-y"));
    args.push(String::from_str("-i"));
    args.push(String::from_str(input));
    args.push(String::from_str("-threads"));
    args.push(String::from_str("0"));
    if same_text(format, "gif") {
        args.push(String::from_str("-vf"));
        args.push(String::from_str("fps=12,scale='min(480,iw)':-1:flags=lanczos"));
        args.push(String::from_str("-c:v"));
        args.push(String::from_str("gif"));
        args.push(String::from_str("-an"));
    } else {
        args.push(String::from_str("-c:v"));
        args.push(String::from_str("libx264"));
        args.push(String::from_str("-crf"));
        args.push(String::from_str(crf_for_quality(quality)));
        args.push(String::from_str("-preset"));
        args.push(String::from_str("fast"));
        args.push(String::from_str("-pix_fmt"));
        args.push(String::from_str("yuv420p"));
        args.push(String::from_str("-c:a"));
        args.push(String::from_str("aac"));
        args.push(String::from_str("-b:a"));
        args.push(String::from_str("192k"));
    }
    args.push(String::from_str("-progress"));
    args.push(String::from_str("pipe:1"));
    args.push(String::from_str(output));
    assert(texts(args@) =~= convert_args_text(input@, output@, format@, quality@));
    args
}

/// What a finished conversion reports: the output path where the transcoder
/// succeeded, the failure message otherwise.
pub fn conversion_outcome(succeeded: bool, output: String) -> (outcome: Result<String, String>)
    ensures
        succeeded ==> outcome is Ok && outcome->Ok_0@ == output@,
        !succeeded ==> outcome is Err && outcome->Err_0@ == "格式转换失败"@,
{
    if succeeded {
        Ok(output)
    } else {
        Err(String::from_str("格式转换失败"))
    }
}

} // verus!
