use base64::Engine;
use chrono::Datelike;
use file_toolkit::convert::{conversion_outcome, convert_args, crf_for_quality};
use file_toolkit::deletion::count_deleted;
use file_toolkit::ffmpeg_utils::{
    binary_name, get_target, suffixed_binary_name, tool_name, TargetArch, TargetOs, Tool,
};
use file_toolkit::file_stats::{extension_key, extension_key_of, extension_label, StatsTally};
use file_toolkit::logger::{
    cleanup_old_logs, format_log_line, is_expired_date, is_expired_log, join_last_lines,
    level_name, log_error, log_file_name, log_info, log_warn, no_logs_message, recent_logs,
    select_expired, todays_log_file_name, LogLevel,
};
use file_toolkit::media::{
    data_url, data_url_from, frame_args, media_type, preview_kind, preview_kind_of_path,
    rendition_args, unsupported_message, PreviewKind,
};
use file_toolkit::probe::{parse_image_dimensions, parse_video_dimensions, pick_dimensions};
use file_toolkit::text::{after_last_dot, push_decimal, same_text};
use file_toolkit::video::{
    clock_time, cut_outcome, duration_probe_args, fast_cut_args, image_probe_args,
    precise_cut_args, preview_args, progress_time, video_probe_args, TimeField,
};
use file_toolkit::watermark::{
    blur_filter, check_selection, cover_args, cover_mode, crop_failed, crop_succeeded,
    ffmpeg_color, fill_filter, image_info, output_file_name, CoverMode,
};

fn day(year: i32, month: u32, date: u32) -> i32 {
    chrono::NaiveDate::from_ymd_opt(year, month, date).unwrap().num_days_from_ce()
}

fn strings(items: &[&str]) -> Vec<String> {
    items.iter().map(|s| s.to_string()).collect()
}

#[test]
fn log_line_has_timestamp_level_and_message() {
    assert_eq!(
        format_log_line("2024-05-06 07:08:09.123", LogLevel::Info, "应用启动"),
        "[2024-05-06 07:08:09.123] [INFO] 应用启动\n"
    );
    assert_eq!(format_log_line("", LogLevel::Error, ""), "[] [ERROR] \n");
    assert_eq!(format_log_line("t", LogLevel::Warn, "a] [b"), "[t] [WARN] a] [b\n");
    assert_eq!(level_name(LogLevel::Info), "INFO");
    assert_eq!(level_name(LogLevel::Error), "ERROR");
    assert_eq!(level_name(LogLevel::Warn), "WARN");
}

fn check_stamped(line: &str, level: &str, message: &str) {
    let tail = format!("] [{}] {}\n", level, message);
    assert!(line.starts_with('['));
    assert!(line.ends_with(&tail));
    let stamp = &line[1..line.len() - tail.len()];
    // %Y-%m-%d %H:%M:%S%.3f
    assert_eq!(stamp.len(), 23);
    assert!(chrono::NaiveDateTime::parse_from_str(stamp, "%Y-%m-%d %H:%M:%S%.3f").is_ok());
}

#[test]
fn log_functions_stamp_the_message_with_their_level() {
    check_stamped(&log_info("started"), "INFO", "started");
    check_stamped(&log_error("broken"), "ERROR", "broken");
    check_stamped(&log_warn("careful"), "WARN", "careful");
}

#[test]
fn log_file_is_named_after_the_day() {
    assert_eq!(log_file_name("2024-05-06"), "2024-05-06.log");
    let today = todays_log_file_name();
    assert!(today.ends_with(".log"));
    assert_eq!(today.len(), 14);
    assert!(chrono::NaiveDate::parse_from_str(&today[..10], "%Y-%m-%d").is_ok());
}

#[test]
fn logs_before_the_cutoff_day_are_expired() {
    let cutoff = day(2024, 5, 10);
    assert!(is_expired_log("2024-05-09.log", cutoff));
    assert!(is_expired_log("2023-12-31.log", cutoff));
    assert!(!is_expired_log("2024-05-10.log", cutoff));
    assert!(!is_expired_log("2024-05-11.log", cutoff));
}

#[test]
fn only_dated_log_files_expire() {
    let cutoff = day(2024, 5, 10);
    assert!(!is_expired_log("2024-05-09.txt", cutoff));
    assert!(!is_expired_log("2024-05-09", cutoff));
    assert!(!is_expired_log("notes.log", cutoff));
    assert!(!is_expired_log(".log", cutoff));
    assert!(!is_expired_log("2024-13-01.log", cutoff));
    assert!(!is_expired_log("2024-02-30.log", cutoff));
    assert!(!is_expired_log("", cutoff));
    // every trailing repetition of the extension is removed before the date is read
    assert!(is_expired_log("2024-05-09.log.log", cutoff));
}

#[test]
fn a_missing_date_never_expires() {
    assert!(!is_expired_date(None, i32::MAX));
    assert!(is_expired_date(Some(5), 6));
    assert!(!is_expired_date(Some(6), 6));
    assert!(!is_expired_date(Some(7), 6));
}

#[test]
fn expired_logs_are_selected_in_order() {
    let names = strings(&["2024-05-12.log", "2024-05-01.log", "readme.md", "2024-04-30.log", "x.log"]);
    assert_eq!(select_expired(&names, day(2024, 5, 5)), strings(&["2024-05-01.log", "2024-04-30.log"]));
    assert!(select_expired(&names, day(2020, 1, 1)).is_empty());
    assert!(select_expired(&Vec::new(), day(2024, 5, 5)).is_empty());
}

#[test]
fn cleanup_picks_logs_older_than_the_retention() {
    let names = strings(&["1999-01-01.log", "2999-01-01.log", "1999-01-01.txt", "1998-06-30.log"]);
    assert_eq!(cleanup_old_logs(&names, 7), strings(&["1999-01-01.log", "1998-06-30.log"]));
    assert_eq!(cleanup_old_logs(&names, 0), strings(&["1999-01-01.log", "1998-06-30.log"]));
    let today = todays_log_file_name();
    assert!(cleanup_old_logs(&vec![today], 7).is_empty());
}

#[test]
fn recent_logs_are_the_last_lines() {
    assert_eq!(recent_logs("a\nb\nc\n", Some(2)), "b\nc");
    assert_eq!(recent_logs("a\r\nb\r\nc", Some(5)), "a\nb\nc");
    // a carriage return belongs to the line ending only before a line feed
    assert_eq!(recent_logs("a\r", Some(5)), "a\r");
    assert_eq!(recent_logs("a\rb\n\r", Some(5)), "a\rb\n\r");
    assert_eq!(recent_logs("a\n\nb\n", Some(5)), "a\n\nb");
    assert_eq!(recent_logs("\r\n", Some(5)), "");
    assert_eq!(recent_logs("\n\n", Some(5)), "\n");
    assert_eq!(recent_logs("a\r\r\n", Some(5)), "a\r");
    assert_eq!(recent_logs("a\nb\nc", Some(0)), "");
    assert_eq!(recent_logs("", None), "");
    assert_eq!(recent_logs("only", Some(1)), "only");
    let long: Vec<String> = (0..250).map(|i| format!("line {}", i)).collect();
    let shown = recent_logs(&long.join("\n"), None);
    assert_eq!(shown, long[150..].join("\n"));
    assert_eq!(shown.lines().count(), 100);
    assert_eq!(join_last_lines(&strings(&["x", "", "z"]), 2), "\nz");
    assert_eq!(join_last_lines(&strings(&["x", "y", "z"]), usize::MAX), "x\ny\nz");
    assert_eq!(no_logs_message(), "暂无日志");
}

#[test]
fn numbers_are_written_in_decimal() {
    for value in [0u64, 1, 9, 10, 99, 100, 12345, 4294967295, u64::MAX] {
        let mut out = String::from("n=");
        push_decimal(&mut out, value);
        assert_eq!(out, format!("n={}", value));
    }
    assert!(same_text("blur", "blur"));
    assert!(!same_text("blur", "Blur"));
    assert!(!same_text("", "x"));
}

#[test]
fn colours_are_converted_for_the_transcoder() {
    assert_eq!(ffmpeg_color("#ffffff"), "0xffffff");
    assert_eq!(ffmpeg_color("#"), "0x");
    assert_eq!(ffmpeg_color("red"), "red");
    assert_eq!(ffmpeg_color("0x00ff00"), "0x00ff00");
    assert_eq!(ffmpeg_color("##12"), "0x#12");
    assert_eq!(ffmpeg_color(""), "");
}

#[test]
fn filters_name_the_selection() {
    assert_eq!(fill_filter(10, 20, 300, 40, "0xffffff"), "drawbox=x=10:y=20:w=300:h=40:color=0xffffff:t=fill");
    assert_eq!(fill_filter(0, 0, 1, 1, "black"), "drawbox=x=0:y=0:w=1:h=1:color=black:t=fill");
    assert_eq!(
        blur_filter(10, 20, 300, 40),
        "[0:v]crop=300:40:10:20[crop];[crop]boxblur=15:3[blur];[0:v][blur]overlay=10:20"
    );
    assert_eq!(
        blur_filter(0, u32::MAX, 7, 8),
        "[0:v]crop=7:8:0:4294967295[crop];[crop]boxblur=15:3[blur];[0:v][blur]overlay=0:4294967295"
    );
}

#[test]
fn cover_arguments_follow_the_mode() {
    assert_eq!(cover_mode("blur"), CoverMode::Blur);
    assert_eq!(cover_mode("fill"), CoverMode::Fill);
    assert_eq!(cover_mode("anything"), CoverMode::Fill);
    assert_eq!(cover_mode(""), CoverMode::Fill);
    assert_eq!(
        cover_args("in.png", "out.png", CoverMode::Fill, 1, 2, 3, 4, "#0a0b0c"),
        strings(&["-y", "-i", "in.png", "-vf", "drawbox=x=1:y=2:w=3:h=4:color=0x0a0b0c:t=fill", "-q:v", "1", "out.png"])
    );
    assert_eq!(
        cover_args("in.png", "out.png", CoverMode::Blur, 1, 2, 3, 4, "#0a0b0c"),
        strings(&[
            "-y",
            "-i",
            "in.png",
            "-filter_complex",
            "[0:v]crop=3:4:1:2[crop];[crop]boxblur=15:3[blur];[0:v][blur]overlay=1:2",
            "-q:v",
            "1",
            "out.png"
        ])
    );
}

#[test]
fn empty_selection_is_refused() {
    assert_eq!(check_selection(0, 5), Err("选区尺寸无效".to_string()));
    assert_eq!(check_selection(5, 0), Err("选区尺寸无效".to_string()));
    assert_eq!(check_selection(0, 0), Err("选区尺寸无效".to_string()));
    assert_eq!(check_selection(1, 1), Ok(()));
}

#[test]
fn image_without_dimensions_is_refused() {
    assert_eq!(image_info("p".to_string(), 0, 10, None).err(), Some("无法获取图片尺寸".to_string()));
    assert_eq!(image_info("p".to_string(), 10, 0, None).err(), Some("无法获取图片尺寸".to_string()));
    let info = image_info("p.png".to_string(), 640, 480, Some("data:x".to_string())).unwrap();
    assert_eq!((info.width, info.height), (640, 480));
    assert_eq!(info.path, "p.png");
    assert_eq!(info.thumbnail, "data:x");
    let bare = image_info("p.png".to_string(), 1, 1, None).unwrap();
    assert_eq!(bare.thumbnail, "");
}

#[test]
fn crop_outcomes_carry_their_message() {
    let done = crop_succeeded("/tmp/a_no_watermark.png".to_string());
    assert!(done.success);
    assert_eq!(done.output_path, "/tmp/a_no_watermark.png");
    assert_eq!(done.message, "已保存到: /tmp/a_no_watermark.png");
    let failed = crop_failed("/tmp/a.png", "文件不存在");
    assert!(!failed.success);
    assert_eq!(failed.output_path, "");
    assert_eq!(failed.message, "/tmp/a.png: 文件不存在");
    assert_eq!(output_file_name("photo", "jpg"), "photo_no_watermark.jpg");
    assert_eq!(output_file_name("", ""), "_no_watermark.");
}

#[test]
fn extensions_are_labelled() {
    assert_eq!(extension_label(""), "(无扩展名)");
    assert_eq!(extension_label("rs"), ".rs");
    assert_eq!(extension_key(Some("JPG".to_string())), "jpg");
    assert_eq!(extension_key(Some("Tar".to_string())), "tar");
    assert_eq!(extension_key(None), "");
    assert_eq!(extension_key_of("dir/Photo.JPEG"), "jpeg");
    assert_eq!(extension_key_of("dir/Makefile"), "");
    assert_eq!(extension_key_of("archive.tar.GZ"), "gz");
}

#[test]
fn statistics_count_files_and_bytes_per_extension() {
    let mut tally = StatsTally::new();
    for (extension, size) in [("rs", 10u64), ("", 1), ("png", 100), ("rs", 20), ("md", 5), ("rs", 30), ("png", 50)] {
        tally.record(extension.to_string(), size);
    }
    assert_eq!(tally.total_files(), 7);
    assert_eq!(tally.total_size(), 216);
    let result = tally.finish();
    let stats: Vec<(String, u64, u64)> =
        result.stats.iter().map(|s| (s.extension.clone(), s.count, s.total_size)).collect();
    assert_eq!(
        stats,
        vec![
            (".rs".to_string(), 3, 60),
            (".png".to_string(), 2, 150),
            ("(无扩展名)".to_string(), 1, 1),
            (".md".to_string(), 1, 5)
        ]
    );
    assert_eq!(result.total_files, 7);
    assert_eq!(result.total_size, 216);
    assert_eq!(result.type_count, 4);
}

#[test]
fn statistics_of_nothing_are_empty() {
    let result = StatsTally::new().finish();
    assert!(result.stats.is_empty());
    assert_eq!(result.total_files, 0);
    assert_eq!(result.total_size, 0);
    assert_eq!(result.type_count, 0);
}

#[test]
fn previews_go_by_the_file_ending() {
    assert_eq!(preview_kind("png"), PreviewKind::Png);
    assert_eq!(preview_kind("gif"), PreviewKind::Gif);
    assert_eq!(preview_kind("webp"), PreviewKind::Webp);
    for ending in ["jpg", "jpeg", "bmp"] {
        assert_eq!(preview_kind(ending), PreviewKind::Jpeg);
    }
    for ending in ["mp4", "mov", "avi", "mkv", "wmv", "flv", "webm"] {
        assert_eq!(preview_kind(ending), PreviewKind::Video);
    }
    for ending in ["", "txt", "PNG", "png ", "/home/user/file"] {
        assert_eq!(preview_kind(ending), PreviewKind::Unsupported);
    }
    assert_eq!(preview_kind_of_path("/a/b/Photo.PNG"), PreviewKind::Png);
    assert_eq!(preview_kind_of_path("clip.tar.MOV"), PreviewKind::Video);
    assert_eq!(preview_kind_of_path("png"), PreviewKind::Png);
    assert_eq!(preview_kind_of_path("/a.b/file"), PreviewKind::Unsupported);
    assert_eq!(preview_kind_of_path("file."), PreviewKind::Unsupported);
    assert_eq!(media_type(PreviewKind::Png), "image/png");
    assert_eq!(media_type(PreviewKind::Gif), "image/gif");
    assert_eq!(media_type(PreviewKind::Webp), "image/webp");
    assert_eq!(media_type(PreviewKind::Jpeg), "image/jpeg");
    assert_eq!(media_type(PreviewKind::Video), "image/jpeg");
    assert_eq!(unsupported_message(), "不支持的文件类型");
}

#[test]
fn data_url_embeds_base64() {
    assert_eq!(data_url("image/png", b"hello world~"), "data:image/png;base64,aGVsbG8gd29ybGR+");
    assert_eq!(data_url("image/jpeg", b""), "data:image/jpeg;base64,");
    assert_eq!(data_url("image/gif", b"a"), "data:image/gif;base64,YQ==");
    let data: Vec<u8> = (0..=255).collect();
    assert_eq!(
        data_url("image/webp", &data),
        format!("data:image/webp;base64,{}", base64::engine::general_purpose::STANDARD.encode(&data))
    );
    assert_eq!(data_url_from("m", "e"), "data:m;base64,e");
}

#[test]
fn preview_arguments_are_fixed_around_the_paths() {
    assert_eq!(
        frame_args("in.mp4", "/tmp/thumb_1.jpg"),
        strings(&["-y", "-ss", "0", "-i", "in.mp4", "-vframes", "1", "-vf", "scale=120:-1", "-q:v", "5", "/tmp/thumb_1.jpg"])
    );
    assert_eq!(
        rendition_args("in.png", "/tmp/thumb_1.jpg"),
        strings(&["-y", "-i", "in.png", "-vf", "scale=400:-1", "-q:v", "5", "/tmp/thumb_1.jpg"])
    );
}

#[test]
fn quality_selects_the_rate_factor() {
    assert_eq!(crf_for_quality("high"), "18");
    assert_eq!(crf_for_quality("medium"), "23");
    assert_eq!(crf_for_quality("low"), "28");
    assert_eq!(crf_for_quality("best"), "20");
    assert_eq!(crf_for_quality(""), "20");
}

#[test]
fn conversion_arguments_follow_the_format() {
    assert_eq!(
        convert_args("in.mov", "out.gif", "gif", "high"),
        strings(&[
            "-y",
            "-i",
            "in.mov",
            "-threads",
            "0",
            "-vf",
            "fps=12,scale='min(480,iw)':-1:flags=lanczos",
            "-c:v",
            "gif",
            "-an",
            "-progress",
            "pipe:1",
            "out.gif"
        ])
    );
    assert_eq!(
        convert_args("in.mov", "out.mp4", "mp4", "low"),
        strings(&[
            "-y", "-i", "in.mov", "-threads", "0", "-c:v", "libx264", "-crf", "28", "-preset", "fast",
            "-pix_fmt", "yuv420p", "-c:a", "aac", "-b:a", "192k", "-progress", "pipe:1", "out.mp4"
        ])
    );
    assert_eq!(convert_args("i", "o", "GIF", "other")[8], "20");
    assert_eq!(conversion_outcome(true, "out.mp4".to_string()), Ok("out.mp4".to_string()));
    assert_eq!(conversion_outcome(false, "out.mp4".to_string()), Err("格式转换失败".to_string()));
}

#[test]
fn binaries_are_named_after_tool_and_target() {
    assert_eq!(get_target(TargetOs::MacOs, TargetArch::X86_64), "x86_64-apple-darwin");
    assert_eq!(get_target(TargetOs::MacOs, TargetArch::Other), "aarch64-apple-darwin");
    assert_eq!(get_target(TargetOs::Windows, TargetArch::X86_64), "x86_64-pc-windows-msvc");
    assert_eq!(get_target(TargetOs::Windows, TargetArch::Other), "x86_64-pc-windows-msvc");
    assert_eq!(get_target(TargetOs::Other, TargetArch::X86_64), "x86_64-unknown-linux-gnu");
    assert_eq!(get_target(TargetOs::Other, TargetArch::Other), "x86_64-unknown-linux-gnu");
    assert_eq!(tool_name(Tool::Ffmpeg), "ffmpeg");
    assert_eq!(tool_name(Tool::Ffprobe), "ffprobe");
    assert_eq!(binary_name(Tool::Ffmpeg, TargetOs::Windows), "ffmpeg.exe");
    assert_eq!(binary_name(Tool::Ffprobe, TargetOs::Other), "ffprobe");
    assert_eq!(binary_name(Tool::Ffmpeg, TargetOs::MacOs), "ffmpeg");
    assert_eq!(
        suffixed_binary_name(Tool::Ffprobe, TargetOs::Windows, TargetArch::X86_64),
        "ffprobe-x86_64-pc-windows-msvc.exe"
    );
    assert_eq!(
        suffixed_binary_name(Tool::Ffmpeg, TargetOs::MacOs, TargetArch::Other),
        "ffmpeg-aarch64-apple-darwin"
    );
}

#[test]
fn only_successful_removals_are_counted() {
    assert_eq!(count_deleted(&vec![]), 0);
    assert_eq!(count_deleted(&vec![true, false, true, true, false]), 3);
    assert_eq!(count_deleted(&vec![false, false]), 0);
}

#[test]
fn image_dimensions_are_read_from_the_probe() {
    assert_eq!(parse_image_dimensions("1920x1080\n"), (1920, 1080));
    assert_eq!(parse_image_dimensions("  640x480  "), (640, 480));
    assert_eq!(parse_image_dimensions("640x480x3"), (640, 480));
    assert_eq!(parse_image_dimensions("abc"), (0, 0));
    assert_eq!(parse_image_dimensions(""), (0, 0));
    assert_eq!(parse_image_dimensions("12x"), (12, 0));
    assert_eq!(parse_image_dimensions("x12"), (0, 12));
    assert_eq!(parse_image_dimensions("-1x5"), (0, 5));
    assert_eq!(parse_image_dimensions("4294967295x4294967296"), (4294967295, 0));
    assert_eq!(parse_image_dimensions("12 x 5"), (0, 0));
    assert_eq!(parse_image_dimensions("+12x+5"), (12, 5));
    assert_eq!(parse_image_dimensions("+x5"), (0, 5));
    assert_eq!(parse_image_dimensions("007x0"), (7, 0));
    assert_eq!(parse_image_dimensions("1_0x5"), (0, 5));
    assert_eq!(parse_image_dimensions("++1x5"), (0, 5));
    assert_eq!(parse_image_dimensions("１２x5"), (0, 5));
    assert_eq!(parse_video_dimensions("1920,1080,30000/1001\n"), (1920, 1080));
    assert_eq!(parse_video_dimensions("1920,1080"), (0, 0));
    assert_eq!(parse_video_dimensions("w,1080,25/1"), (0, 1080));
    assert_eq!(pick_dimensions(&vec![Some(3), None, Some(9)], 3), (3, 0));
    assert_eq!(pick_dimensions(&vec![Some(3), Some(4)], 3), (0, 0));
    assert_eq!(pick_dimensions(&vec![Some(3)], 1), (0, 0));
    assert_eq!(pick_dimensions(&vec![], 0), (0, 0));
}

#[test]
fn probe_and_cut_arguments_are_fixed_around_their_inputs() {
    assert_eq!(
        duration_probe_args("a.mp4"),
        strings(&["-v", "error", "-show_entries", "format=duration", "-of", "default=noprint_wrappers=1:nokey=1", "a.mp4"])
    );
    assert_eq!(
        video_probe_args("a.mp4"),
        strings(&["-v", "error", "-select_streams", "v:0", "-show_entries", "stream=width,height,r_frame_rate", "-of", "csv=p=0", "a.mp4"])
    );
    assert_eq!(
        image_probe_args("a.png"),
        strings(&["-v", "error", "-select_streams", "v:0", "-show_entries", "stream=width,height", "-of", "csv=p=0:s=x", "a.png"])
    );
    assert_eq!(
        preview_args("1.5", "a.mp4", "p.jpg"),
        strings(&["-y", "-ss", "1.5", "-i", "a.mp4", "-vframes", "1", "-q:v", "2", "p.jpg"])
    );
    assert_eq!(
        fast_cut_args("2", "a.mp4", "3.25", "b.mp4"),
        strings(&["-y", "-ss", "2", "-i", "a.mp4", "-t", "3.25", "-c", "copy", "-avoid_negative_ts", "make_zero", "b.mp4"])
    );
    assert_eq!(
        precise_cut_args("2", "a.mp4", "3.25", "b.mp4"),
        strings(&[
            "-y", "-ss", "2", "-i", "a.mp4", "-t", "3.25", "-c:v", "libx264", "-crf", "23", "-preset",
            "veryfast", "-c:a", "aac", "-b:a", "128k", "-progress", "pipe:1", "b.mp4"
        ])
    );
}

#[test]
fn progress_lines_give_the_time_reached() {
    assert_eq!(progress_time("out_time_ms=1500000"), Some((TimeField::Microseconds, "1500000")));
    assert_eq!(progress_time("out_time_us=42"), Some((TimeField::Microseconds, "42")));
    assert_eq!(progress_time("out_time=00:00:01.500000"), Some((TimeField::Clock, "00:00:01.500000")));
    assert_eq!(progress_time("out_time="), Some((TimeField::Clock, "")));
    assert_eq!(progress_time("frame=12"), None);
    assert_eq!(progress_time(" out_time=1"), None);
    assert_eq!(progress_time(""), None);
    assert_eq!(clock_time("out_time=00:01:02.5"), Some("00:01:02.5"));
    assert_eq!(clock_time("out_time_ms=5"), None);
    assert_eq!(clock_time("progress=end"), None);
}

#[test]
fn a_cut_reports_its_output_or_its_failure() {
    assert_eq!(cut_outcome(true, "out.mp4".to_string()), Ok("out.mp4".to_string()));
    assert_eq!(cut_outcome(false, "out.mp4".to_string()), Err("视频截取失败".to_string()));
}

#[test]
fn the_ending_is_what_follows_the_last_dot() {
    assert_eq!(after_last_dot("a.b.c"), "c");
    assert_eq!(after_last_dot("archive.tar.gz"), "gz");
    assert_eq!(after_last_dot("nodot"), "nodot");
    assert_eq!(after_last_dot("trailing."), "");
    assert_eq!(after_last_dot("."), "");
    assert_eq!(after_last_dot(""), "");
    assert_eq!(after_last_dot(".hidden"), "hidden");
    assert_eq!(after_last_dot("/a.b/file"), "b/file");
}

#[test]
fn a_negative_retention_reaches_into_the_future() {
    let names = strings(&["1999-01-01.log", "2999-01-01.log"]);
    let today = todays_log_file_name();
    // a cutoff far in the future: everything up to then is expired, today's log too
    let expired = cleanup_old_logs(&vec![names[0].clone(), today.clone(), names[1].clone()], -36500);
    assert_eq!(expired, vec![names[0].clone(), today]);
    assert!(cleanup_old_logs(&names, 36500 * 2).is_empty() || cleanup_old_logs(&names, 36500 * 2) == vec![names[0].clone()]);
}

#[test]
fn statistics_entries_add_up_to_the_totals() {
    let mut tally = StatsTally::new();
    for i in 0..500u64 {
        tally.record(format!("e{}", i % 13), i);
    }
    let result = tally.finish();
    assert_eq!(result.type_count, 13);
    assert_eq!(result.stats.iter().map(|s| s.count).sum::<u64>(), result.total_files);
    assert_eq!(result.stats.iter().map(|s| s.total_size).sum::<u64>(), result.total_size);
    assert_eq!(result.total_files, 500);
    assert_eq!(result.total_size, (0..500u64).sum::<u64>());
    assert!(result.stats.iter().all(|s| s.count >= 1));
    for pair in result.stats.windows(2) {
        assert!(pair[0].count >= pair[1].count);
        assert_ne!(pair[0].extension, pair[1].extension);
    }
}
