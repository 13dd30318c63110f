use playlist_catalog::config::{parse_config, Config, DEFAULT_PLAYLIST_PATH};
use playlist_catalog::player::{
    after_spawn, after_wait, begin_launch, resolve_player, LaunchStep, Outcome, PlayerFault,
    SpawnReport, WaitReport,
};

fn config(mpv: Option<&str>, vlc: Option<&str>) -> Config {
    Config {
        playlist_path: None,
        mpv_path: mpv.map(|p| p.to_string()),
        vlc_path: vlc.map(|p| p.to_string()),
    }
}

#[test]
fn unknown_player_is_a_configuration_error() {
    let settings = config(Some("/usr/bin/mpv"), Some("/usr/bin/vlc"));
    assert_eq!(
        begin_launch(&settings, "unknown", "http://s/1"),
        LaunchStep::Done(Outcome::ConfigurationError)
    );
    assert_eq!(begin_launch(&settings, "", "http://s/1"), LaunchStep::Done(Outcome::ConfigurationError));
    assert_eq!(begin_launch(&settings, "MPV", "http://s/1"), LaunchStep::Done(Outcome::ConfigurationError));
    assert_eq!(resolve_player(&settings, "unknown"), Err(PlayerFault::UnknownPlayer));
}

#[test]
fn player_without_path_is_a_configuration_error() {
    let settings = config(None, Some("/usr/bin/vlc"));
    assert_eq!(begin_launch(&settings, "mpv", "http://s/1"), LaunchStep::Done(Outcome::ConfigurationError));
    assert_eq!(resolve_player(&settings, "mpv"), Err(PlayerFault::PathNotConfigured));
    assert_eq!(resolve_player(&config(Some("m"), None), "vlc"), Err(PlayerFault::PathNotConfigured));
}

#[test]
fn known_player_is_started_with_the_address() {
    let settings = config(Some("/usr/bin/mpv"), Some("C:\\vlc\\vlc.exe"));
    assert_eq!(
        begin_launch(&settings, "mpv", "http://s/1?a=b c"),
        LaunchStep::Spawn { program: "/usr/bin/mpv".to_string(), argument: "http://s/1?a=b c".to_string() }
    );
    assert_eq!(
        begin_launch(&settings, "vlc", ""),
        LaunchStep::Spawn { program: "C:\\vlc\\vlc.exe".to_string(), argument: String::new() }
    );
    assert_eq!(resolve_player(&settings, "vlc"), Ok("C:\\vlc\\vlc.exe".to_string()));
}

#[test]
fn spawn_report_decides() {
    assert_eq!(after_spawn(SpawnReport::Started), None);
    assert_eq!(after_spawn(SpawnReport::Failed), Some(Outcome::SpawnFailure));
}

#[test]
fn wait_report_decides() {
    assert_eq!(after_wait(WaitReport::Exited { code: Some(0) }), Outcome::Success);
    assert_eq!(after_wait(WaitReport::Exited { code: Some(1) }), Outcome::NonZeroExit);
    assert_eq!(after_wait(WaitReport::Exited { code: Some(-1) }), Outcome::NonZeroExit);
    assert_eq!(after_wait(WaitReport::Exited { code: None }), Outcome::NonZeroExit);
    assert_eq!(after_wait(WaitReport::Failed), Outcome::WaitFailure);
}

#[test]
fn config_lines_set_values() {
    let settings = parse_config("playlist_path = /tv/list.m3u\nmpv_path=/usr/bin/mpv\n# note\nvlc_path =  /usr/bin/vlc  \n");
    assert_eq!(settings.playlist_path, Some("/tv/list.m3u".to_string()));
    assert_eq!(settings.mpv_path, Some("/usr/bin/mpv".to_string()));
    assert_eq!(settings.vlc_path, Some("/usr/bin/vlc".to_string()));
    assert_eq!(settings.playlist_path_or_default(), "/tv/list.m3u");
}

#[test]
fn config_defaults_and_oddities() {
    let empty = parse_config("");
    assert_eq!(empty, Config::new());
    assert_eq!(DEFAULT_PLAYLIST_PATH, "playlist.m3u");
    assert_eq!(empty.playlist_path_or_default(), "playlist.m3u");
    let settings = parse_config("mpv_path\nMPV_PATH=x\nmpv_path=a=b\r\nother=1\nvlc_path=\nmpv_path=last=one\n=novalue");
    assert_eq!(settings.mpv_path, Some("last=one".to_string()));
    assert_eq!(settings.vlc_path, Some(String::new()));
    assert_eq!(settings.playlist_path, None);
}

#[test]
fn config_feeds_the_launcher() {
    let settings = parse_config("mpv_path=/opt/mpv\n");
    assert_eq!(
        begin_launch(&settings, "mpv", "http://s"),
        LaunchStep::Spawn { program: "/opt/mpv".to_string(), argument: "http://s".to_string() }
    );
    assert_eq!(begin_launch(&settings, "vlc", "http://s"), LaunchStep::Done(Outcome::ConfigurationError));
}

#[test]
fn config_can_be_read_line_by_line() {
    let mut settings = Config::new();
    settings.read_line("vlc_path = /a");
    settings.read_line("nothing here");
    settings.read_line("  vlc_path=/b");
    settings.read_line("playlist_path=p.m3u");
    assert_eq!(settings.vlc_path, Some("/b".to_string()));
    assert_eq!(settings.mpv_path, None);
    assert_eq!(settings.playlist_path_or_default(), "p.m3u");
}
