//! Names under which the bundled transcoder binaries are looked up.

use vstd::prelude::*;
use vstd::string::StringExecFns;

verus! {

/// The operating system the program was built for.
#[derive(Clone, Copy, PartialEq, Eq, Debug, Structural)]
pub enum TargetOs {
    MacOs,
    Windows,
    Other,
}

/// The processor the program was built for.
#[derive(Clone, Copy, PartialEq, Eq, Debug, Structural)]
pub enum TargetArch {
    X86_64,
    Other,
}

/// One of the two bundled binaries.
#[derive(Clone, Copy, PartialEq, Eq, Debug, Structural)]
pub enum Tool {
    Ffmpeg,
    Ffprobe,
}

/// The target triple that suffixes a bundled binary.
pub open spec fn target_text(os: TargetOs, arch: TargetArch) -> Seq<char> {
    match os {
        TargetOs::MacOs => match arch {
            TargetArch::X86_64 => "x86_64-apple-darwin"@,
            TargetArch::Other => "aarch64-apple-darwin"@,
        },
        TargetOs::Windows => "x86_64-pc-windows-msvc"@,
        TargetOs::Other => "x86_64-unknown-linux-gnu"@,
    }
}

/// The target triple that suffixes a bundled binary.
pub fn get_target(os: TargetOs, arch: TargetArch) -> (target: &'static str)
    ensures
        target@ == target_text(os, arch),
{
    match os {
        TargetOs::MacOs => match arch {
            TargetArch::X86_64 => "x86_64-apple-darwin",
            TargetArch::Other => "aarch64-apple-darwin",
        },
        TargetOs::Windows => "x86_64-pc-windows-msvc",
        TargetOs::Other => "x86_64-unknown-linux-gnu",
    }
}

/// The bare name of a tool, under which the system path is searched last.
pub open spec fn tool_text(tool: Tool) -> Seq<char> {
    match tool {
        Tool::Ffmpeg => "ffmpeg"@,
        Tool::Ffprobe => "ffprobe"@,
    }
}

/// The bare name of a tool.
pub fn tool_name(tool: Tool) -> (name: &'static str)
    ensures
        name@ == tool_text(tool),
{
    match tool {
        Tool::Ffmpeg => "ffmpeg",
        Tool::Ffprobe => "ffprobe",
    }
}

/// The ending of executable files on an operating system.
pub open spec fn exe_suffix_text(os: TargetOs) -> Seq<char> {
    match os {
        TargetOs::Windows => ".exe"@,
        _ => ""@,
    }
}

fn exe_suffix(os: TargetOs) -> (suffix: &'static str)
    ensures
        suffix@ == exe_suffix_text(os),
{
    match os {
        TargetOs::Windows => ".exe",
        _ => "",
    }
}

/// The file name of a bundled tool: its bare name, with `.exe` on Windows.
pub fn binary_name(tool: Tool, os: TargetOs) -> (name: String)
    ensures
        name@ == tool_text(tool) + exe_suffix_text(os),
{
    let mut name = String::from_str(tool_name(tool));
    name.append(exe_suffix(os));
    name
}

/// The file name of a bundled tool with its target triple: the bare name, a
/// hyphen and the triple, with `.exe` on Windows.
pub fn suffixed_binary_name(tool: Tool, os: TargetOs, arch: TargetArch) -> (name: String)
    ensures
        name@ == tool_text(tool) + "-"@ + target_text(os, arch) + exe_suffix_text(os),
{
    let mut name = String::from_str(tool_name(tool));
    name.append("-");
    name.append(get_target(os, arch));
    name.append(exe_suffix(os));
    name
}

} // verus!
