use haul::verify::{
    audio_args, decode_complaints, frame_args, image_args, judge_json, level_for,
    level_for_content_type, parse_mean_volume, pick_track, stream_copies_args, verify_archive,
    verify_audio_with_ffmpeg, verify_image, verify_json, verify_text, verify_video, Audio, AudioRun,
    Gate, JsonFindings, Level, Packet, Track, Volume,
};

#[test]
fn content_type_wins_over_extension_when_available() {
    assert_eq!(level_for_content_type("image/png"), Some(Level::Image));
    assert_eq!(
        level_for_content_type("application/json; charset=utf-8"),
        Some(Level::Json)
    );
    assert_eq!(level_for_content_type("video/mp4"), Some(Level::Media));
    assert_eq!(level_for_content_type("application/octet-stream"), None);
}

#[test]
fn extension_maps_to_the_strongest_available_check() {
    assert_eq!(level_for("mp4"), Level::Media);
    assert_eq!(level_for("JPG"), Level::Image);
    assert_eq!(level_for("json"), Level::Json);
    assert_eq!(level_for("pdf"), Level::Archive);
    assert_eq!(level_for("txt"), Level::Text);
    assert_eq!(level_for("bin"), Level::Integrity);
}

#[test]
fn levels_have_their_names() {
    let names: Vec<_> = [
        Level::Media,
        Level::Image,
        Level::Json,
        Level::Archive,
        Level::Text,
        Level::Integrity,
    ]
    .iter()
    .map(|l| l.as_str())
    .collect();
    assert_eq!(names, ["media", "image", "json", "archive", "text", "integrity"]);
    assert_eq!(level_for_content_type(" TEXT/plain"), Some(Level::Text));
    assert_eq!(level_for_content_type("application/epub+zip"), Some(Level::Archive));
}

#[test]
fn json_gate_accepts_both_json_and_ndjson() {
    assert!(verify_json(r#"{"a":1}"#).is_ok());
    assert!(verify_json("{\"a\":1}\n{\"b\":2}\n").is_ok());
}

#[test]
fn json_gate_catches_truncation() {
    assert!(verify_json(r#"{"a":1"#).is_err());
    assert!(verify_json("").is_err());
}

#[test]
fn json_gate_says_what_is_wrong() {
    assert_eq!(verify_json(" \n ").unwrap_err(), "檔案是空的");
    assert!(verify_json("{}\nx\n").unwrap_err().starts_with("不是合法的 JSON 或 NDJSON："));
    assert!(verify_json("{}\n\n[]\n").is_ok());
    let f = |blank: bool, whole: bool, lines: Vec<Result<(), String>>| {
        judge_json(&JsonFindings { blank, whole, lines })
    };
    assert_eq!(f(true, true, vec![]).unwrap_err(), "檔案是空的");
    assert!(f(false, true, vec![Err("x".into())]).is_ok());
    assert_eq!(
        f(false, false, vec![Ok(()), Err("e1".into()), Err("e2".into())]).unwrap_err(),
        "不是合法的 JSON 或 NDJSON：e1"
    );
    assert_eq!(f(false, false, vec![]).unwrap_err(), "沒有任何一行是 JSON");
    assert!(f(false, false, vec![Ok(())]).is_ok());
}

#[test]
fn archive_gate_catches_truncated_pdf_and_zip() {
    let mut pdf = b"%PDF-1.7\n".to_vec();
    pdf.extend([b'x'; 100]);
    assert!(verify_archive(&pdf).is_err());

    pdf.extend(b"\n%%EOF\n");
    assert!(verify_archive(&pdf).is_ok());

    let mut zip = b"PK\x03\x04".to_vec();
    zip.extend([0u8; 100]);
    assert!(verify_archive(&zip).is_err());

    zip.extend(b"PK\x05\x06");
    zip.extend([0u8; 18]);
    assert!(verify_archive(&zip).is_ok());
}

#[test]
fn archive_gate_rejects_things_that_are_not_archives() {
    let junk = vec![b'z'; 64];
    assert!(verify_archive(&junk).is_err());
}

#[test]
fn archive_gate_looks_at_the_last_two_thousand_bytes() {
    let mut pdf = b"%PDF-1.7\n%%EOF".to_vec();
    pdf.extend(vec![b'x'; 2044]);
    assert!(verify_archive(&pdf).is_err());
    let mut near = b"%PDF-1.7\n".to_vec();
    near.extend(b"%%EOF");
    near.extend(vec![b'x'; 2043]);
    assert!(verify_archive(&near).is_ok());
    assert_eq!(
        verify_archive(b"%PDF-").unwrap_err(),
        "檔案只有 5 bytes，不像完整的檔案"
    );
    let mut empty_zip = b"PK\x05\x06".to_vec();
    empty_zip.extend([0u8; 40]);
    assert!(verify_archive(&empty_zip).is_ok());
}

#[test]
fn text_gate_rejects_empty_blank_and_invalid_utf8() {
    assert!(verify_text("內容".as_bytes()).is_ok());
    assert!(verify_text(b"").is_err());
    assert!(verify_text(b"   \n\t ").is_err());
    assert!(verify_text(&[0xFF, 0xFE, 0x00]).is_err());
    assert_eq!(
        verify_text(&[b'a', 0xFF]).unwrap_err(),
        "不是合法的 UTF-8：invalid utf-8 sequence of 1 bytes from index 1"
    );
}

fn decibels(v: Option<Volume>) -> Option<f64> {
    match v? {
        Volume::MinusInfinity => Some(f64::NEG_INFINITY),
        Volume::Decibels(t) => t.parse::<f64>().ok(),
    }
}

#[test]
fn parses_mean_volume_from_ffmpeg_output() {
    let s = "[Parsed_volumedetect_0 @ 0x7f] n_samples: 123\n\
             [Parsed_volumedetect_0 @ 0x7f] mean_volume: -18.4 dB\n\
             [Parsed_volumedetect_0 @ 0x7f] max_volume: -0.9 dB";
    assert_eq!(decibels(parse_mean_volume(s)), Some(-18.4));
}

#[test]
fn parses_digital_silence_as_negative_infinity() {
    let s = "[Parsed_volumedetect_0 @ 0x7f] mean_volume: -inf dB";
    assert_eq!(decibels(parse_mean_volume(s)), Some(f64::NEG_INFINITY));
    assert_eq!(parse_mean_volume(s), Some(Volume::MinusInfinity));
}

#[test]
fn missing_mean_volume_is_none_not_zero() {
    assert_eq!(decibels(parse_mean_volume("nothing useful here")), None);
}

#[test]
fn muxer_timestamp_complaints_are_not_decode_errors() {
    let s = "[null @ 0x12c805720] Application provided invalid, non monotonically \
             increasing dts to muxer in stream 0: 2 >= 2";
    assert!(decode_complaints(s).is_empty());
}

#[test]
fn real_decoder_and_demuxer_errors_survive_the_filter() {
    let s = "[mov,mp4,m4a,3gp,3g2,mj2 @ 0x133904080] stream 1, contradictionary STSC and STCO";
    assert_eq!(decode_complaints(s).len(), 1);

    let s = "[av1 @ 0x600002] Failed to decode frame";
    assert_eq!(decode_complaints(s).len(), 1);
}

#[test]
fn mixed_output_keeps_only_the_real_problem() {
    let s = "[null @ 0x1] non monotonically increasing dts to muxer in stream 0: 2 >= 2\n\
             \n\
             [h264 @ 0x2] error while decoding MB 12 4\n\
             [null @ 0x1] non monotonically increasing dts to muxer in stream 0: 5 >= 5";
    let got = decode_complaints(s);
    assert_eq!(got.len(), 1);
    assert!(got[0].contains("error while decoding"));
}

#[test]
fn pictures_and_frames_fail_on_exit_or_complaint() {
    assert!(verify_image(true, "").is_ok());
    assert!(verify_image(true, "[null @ 0x1] x\n").is_ok());
    assert_eq!(verify_image(true, " bad \n").unwrap_err(), "圖片有問題：bad");
    assert_eq!(verify_image(false, "bad").unwrap_err(), "這不是一張解得開的圖片：bad");
    assert_eq!(
        verify_image(false, "[null @ 0x1] x").unwrap_err(),
        "這不是一張解得開的圖片：ffmpeg 未說明原因"
    );
    assert!(verify_video(true, "", "4").is_ok());
    assert_eq!(verify_video(false, "gone", "4").unwrap_err(), "第 4 秒解不出畫面：gone");
    assert_eq!(verify_video(true, "odd", "92").unwrap_err(), "第 92 秒畫面有問題：odd");
}

#[test]
fn ffmpeg_is_called_as_it_should_be() {
    assert_eq!(image_args("f"), ["-v", "error", "-nostdin", "-i", "f", "-frames:v", "1", "-f", "null", "-"]);
    assert_eq!(
        frame_args("f", "1.50"),
        ["-v", "error", "-nostdin", "-ss", "1.50", "-i", "f", "-map", "0:v:0", "-frames:v", "8", "-an", "-f", "null", "-"]
    );
    assert_eq!(
        audio_args("f"),
        ["-nostdin", "-i", "f", "-map", "0:a:0", "-af", "volumedetect", "-f", "null", "-"]
    );
    assert_eq!(
        stream_copies_args("f", "0:a:0"),
        ["-v", "error", "-nostdin", "-i", "f", "-map", "0:a:0", "-c", "copy", "-t", "0.01", "-f", "null", "-"]
    );
}

fn run(succeeded: bool, sound: bool, file: bool, silence: Option<&str>) -> AudioRun {
    AudioRun {
        succeeded,
        stderr: "x\n last \n".to_string(),
        sound_copies: sound,
        file_copies: file,
        silence: silence.map(|s| s.to_string()),
    }
}

#[test]
fn absent_sound_is_not_broken_sound() {
    assert_eq!(verify_audio_with_ffmpeg(&run(true, false, false, None)), Ok(Audio::Decoded));
    assert_eq!(verify_audio_with_ffmpeg(&run(false, false, true, None)), Ok(Audio::Absent));
    assert_eq!(
        verify_audio_with_ffmpeg(&run(false, true, true, None)).unwrap_err(),
        "ffmpeg 解不開這個音訊：last"
    );
    assert!(verify_audio_with_ffmpeg(&run(false, false, false, None)).is_err());
    assert_eq!(
        verify_audio_with_ffmpeg(&run(true, false, false, Some("-91.0"))).unwrap_err(),
        "整首無聲（mean_volume -91.0 dB）"
    );
}

fn track(id: u32, decodable: bool, sample_rate: Option<u32>) -> Track {
    Track { id, decodable, sample_rate }
}

#[test]
fn the_first_track_of_sound_is_decoded() {
    let v = vec![track(0, true, None), track(1, false, Some(1)), track(2, true, Some(44_100))];
    assert_eq!(pick_track(&v), Ok(2));
    assert_eq!(pick_track(&vec![]).unwrap_err(), "檔案裡沒有可解碼的音訊軌");
    assert_eq!(pick_track(&vec![track(0, true, Some(0))]).unwrap_err(), "取樣率不明");
}

#[test]
fn the_gate_wants_a_second_of_sound_that_is_not_silence() {
    let mut g = Gate::new(7, 100);
    assert!(g.wants(7) && !g.wants(8));
    assert_eq!(g.finish("0.00", None).unwrap_err(), "完全解不出音訊資料");
    g.take(&Packet::Decoded { samples: 198, channels: 2 }).unwrap();
    assert_eq!(g.finish("0.99", None).unwrap_err(), "長度只有 0.99 秒");
    g.take(&Packet::Decoded { samples: 1, channels: 0 }).unwrap();
    assert_eq!(g.counted(), (100, 199));
    assert!(g.finish("1.00", None).is_ok());
    assert_eq!(g.finish("1.00", Some("-80.0")).unwrap_err(), "整首無聲（RMS -80.0 dB）");
}

#[test]
fn a_few_bad_packets_are_passed_over() {
    let mut g = Gate::new(0, 1);
    for _ in 0..8 {
        g.take(&Packet::Bad("m".to_string())).unwrap();
    }
    assert_eq!(
        g.take(&Packet::Bad("m".to_string())).unwrap_err(),
        "解碼錯誤過多（最後一筆：m）"
    );
    assert_eq!(g.take(&Packet::Broken("b".to_string())).unwrap_err(), "解碼失敗：b");
}
