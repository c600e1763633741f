use simai_player::cli::{is_audio_file_name, ChartConfig, CliArgs, ConfigError, DirEntryInfo, FsProbe};

fn folder_args() -> CliArgs {
    CliArgs {
        folder: Some("songs/Cool".to_string()),
        chart: None,
        song: Some("track".to_string()),
        chart_name: "maidata.txt".to_string(),
        offset: 3,
    }
}

fn entry(name: &str) -> Option<DirEntryInfo> {
    Some(DirEntryInfo { path: format!("songs/Cool/{}", name), file_name: name.to_string() })
}

fn probe(entries: Result<Vec<Option<DirEntryInfo>>, String>) -> FsProbe {
    FsProbe {
        folder_chart_path: "songs/Cool/maidata.txt".to_string(),
        folder_chart_exists: true,
        folder_exists: true,
        folder_entries: entries,
        chart_exists: false,
        song_exists: false,
    }
}

#[test]
fn folder_mode_takes_the_first_audio_file() {
    let p = probe(Ok(vec![entry("maidata.txt"), None, entry("bg.png"), entry("track.ogg"), entry("alt.wav")]));
    assert_eq!(
        folder_args().get_config(&p),
        Ok(ChartConfig {
            chart_path: "songs/Cool/maidata.txt".to_string(),
            song_path: "songs/Cool/track.ogg".to_string(),
            offset: 3,
        })
    );
}

#[test]
fn folder_mode_skips_flac() {
    let p = probe(Ok(vec![entry("a.flac")]));
    assert_eq!(
        folder_args().get_config(&p),
        Err(ConfigError::NoAudioFile("songs/Cool".to_string()))
    );
}

#[test]
fn folder_mode_errors() {
    let mut p = probe(Ok(vec![entry("maidata.txt")]));
    assert_eq!(
        folder_args().get_config(&p),
        Err(ConfigError::NoAudioFile("songs/Cool".to_string()))
    );
    p.folder_entries = Err("denied".to_string());
    assert_eq!(
        folder_args().get_config(&p),
        Err(ConfigError::ReadDirFailed("songs/Cool".to_string(), "denied".to_string()))
    );
    p.folder_exists = false;
    assert_eq!(folder_args().get_config(&p), Err(ConfigError::FolderMissing("songs/Cool".to_string())));
    p.folder_chart_exists = false;
    assert_eq!(
        folder_args().get_config(&p),
        Err(ConfigError::ChartNotFound("songs/Cool/maidata.txt".to_string()))
    );
}

#[test]
fn file_mode() {
    let args = CliArgs {
        folder: None,
        chart: Some("c.txt".to_string()),
        song: Some("s.wav".to_string()),
        chart_name: "maidata.txt".to_string(),
        offset: -5,
    };
    let mut p = probe(Ok(vec![]));
    assert_eq!(args.get_config(&p), Err(ConfigError::ChartNotFound("c.txt".to_string())));
    p.chart_exists = true;
    assert_eq!(args.get_config(&p), Err(ConfigError::SongNotFound("s.wav".to_string())));
    p.song_exists = true;
    assert_eq!(
        args.get_config(&p),
        Ok(ChartConfig { chart_path: "c.txt".to_string(), song_path: "s.wav".to_string(), offset: -5 })
    );
}

#[test]
fn audio_extensions() {
    assert!(is_audio_file_name("a.wav"));
    assert!(is_audio_file_name("a.b.ogg"));
    assert!(!is_audio_file_name("a.flac"));
    assert!(is_audio_file_name("x.mp3"));
    assert!(!is_audio_file_name(".ogg"));
    assert!(!is_audio_file_name("a.WAV"));
    assert!(!is_audio_file_name("wav"));
    assert!(!is_audio_file_name("a.wav.txt"));
    assert!(!is_audio_file_name(".."));
    assert!(is_audio_file_name("..ogg"));
}

#[test]
fn configuration_error_messages() {
    assert_eq!(ConfigError::ChartNotFound("c.txt".to_string()).message(), "Chart file not found: \"c.txt\"");
    assert_eq!(ConfigError::SongNotFound("s.wav".to_string()).message(), "Song file not found: \"s.wav\"");
    assert_eq!(ConfigError::FolderMissing("a\"b".to_string()).message(), "Folder does not exist: \"a\\\"b\"");
    assert_eq!(
        ConfigError::ReadDirFailed("songs".to_string(), "denied".to_string()).message(),
        "Failed to read directory \"songs\": denied"
    );
    assert_eq!(
        ConfigError::NoAudioFile("songs/Cool".to_string()).message(),
        "No audio file (.wav, .ogg, .mp3) found in folder: \"songs/Cool\""
    );
}
