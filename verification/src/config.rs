//! Settings of the program, read from lines of the form `key=value`.

use vstd::prelude::*;
use crate::text::{
    chars_of, find_char, first_occurrence, lines_of, same_chars, split_lines, string_of, trim, trimmed,
};
use vstd::slice::slice_subrange;

verus! {

/// Path of the playlist where the settings name none.
pub const DEFAULT_PLAYLIST_PATH: &'static str = "playlist.m3u";

/// The settings that the program reads.
#[derive(Debug, PartialEq, Eq)]
pub struct Config {
    pub playlist_path: Option<String>,
    pub mpv_path: Option<String>,
    pub vlc_path: Option<String>,
}

/// The mathematical value of a [`Config`].
pub struct ConfigView {
    pub playlist_path: Option<Seq<char>>,
    pub mpv_path: Option<Seq<char>>,
    pub vlc_path: Option<Seq<char>>,
}

/// The value of an optional string.
pub open spec fn text_view(text: Option<String>) -> Option<Seq<char>> {
    match text {
        Some(t) => Some(t@),
        None => None,
    }
}

impl View for Config {
    type V = ConfigView;

    open spec fn view(&self) -> ConfigView {
        ConfigView {
            playlist_path: text_view(self.playlist_path),
            mpv_path: text_view(self.mpv_path),
            vlc_path: text_view(self.vlc_path),
        }
    }
}

/// The key and the value that a line sets: what stands before its first
/// `=` and what stands after it, each without surrounding whitespace. A line
/// without `=` sets nothing.
pub open spec fn setting_of(line: Seq<char>) -> Option<(Seq<char>, Seq<char>)> {
    match first_occurrence(line, seq!['=']) {
        Some(at) => Some((trim(line.take(at)), trim(line.skip(at + 1)))),
        None => None,
    }
}

/// The settings after `line` is read: where the line sets one of the keys
/// `playlist_path`, `mpv_path` and `vlc_path`, that key has the new value.
pub open spec fn config_after_line(config: ConfigView, line: Seq<char>) -> ConfigView {
    match setting_of(line) {
        Some(setting) => ConfigView {
            playlist_path: if setting.0 == "playlist_path"@ {
                Some(setting.1)
            } else {
                config.playlist_path
            },
            mpv_path: if setting.0 == "mpv_path"@ {
                Some(setting.1)
            } else {
                config.mpv_path
            },
            vlc_path: if setting.0 == "vlc_path"@ {
                Some(setting.1)
            } else {
                config.vlc_path
            },
        },
        None => config,
    }
}

/// The settings that `lines` give, read in order: a later line overrides an earlier one.
pub open spec fn config_of(lines: Seq<Seq<char>>) -> ConfigView
    decreases lines.len(),
{
    if lines.len() == 0 {
        ConfigView { playlist_path: None, mpv_path: None, vlc_path: None }
    } else {
        config_after_line(config_of(lines.drop_last()), lines.last())
    }
}

impl Config {
    /// The settings without any value.
    pub fn new() -> (config: Config)
        ensures
            config@ == (ConfigView { playlist_path: None, mpv_path: None, vlc_path: None }),
    {
        Config { playlist_path: None, mpv_path: None, vlc_path: None }
    }

    fn read_chars(&mut self, line: &[char])
        ensures
            final(self)@ == config_after_line(old(self)@, line@),
    {
        let n: usize = line.len();
        match find_char(line, '=') {
            Some(at) => {
                let key = trimmed(slice_subrange(line, 0, at));
                let value = trimmed(slice_subrange(line, at + 1, n));
                assert(setting_of(line@) == Some((key@, value@)));
                let playlist_key = chars_of("playlist_path");
                let mpv_key = chars_of("mpv_path");
                let vlc_key = chars_of("vlc_path");
                if same_chars(key, &playlist_key) {
                    self.playlist_path = Some(string_of(value));
                }
                if same_chars(key, &mpv_key) {
                    self.mpv_path = Some(string_of(value));
                }
                if same_chars(key, &vlc_key) {
                    self.vlc_path = Some(string_of(value));
                }
            },
            None => {},
        }
    }

    /// Reads one line of a settings file.
    pub fn read_line(&mut self, line: &str)
        ensures
            final(self)@ == config_after_line(old(self)@, line@),
    {
        let chars = chars_of(line);
        self.read_chars(&chars);
    }

    /// The path of the playlist: the one set, or `DEFAULT_PLAYLIST_PATH`.
    pub fn playlist_path_or_default(&self) -> (path: String)
        ensures
            path@ == match self@.playlist_path {
                Some(p) => p,
                None => DEFAULT_PLAYLIST_PATH@,
            },
    {
        match &self.playlist_path {
            Some(p) => p.clone(),
            None => DEFAULT_PLAYLIST_PATH.to_owned(),
        }
    }
}

/// Reads the settings from the text of a settings file.
pub fn parse_config(text: &str) -> (config: Config)
    ensures
        config@ == config_of(lines_of(text@)),
{
    let chars = chars_of(text);
    let lines = split_lines(&chars);
    let ghost all = lines_of(text@);
    let mut config = Config::new();
    let mut i: usize = 0;
    assert(all.take(0) =~= Seq::<Seq<char>>::empty());
    while i < lines.len()
        invariant
            i <= lines.len(),
            lines@.len() == all.len(),
            forall|k: int| 0 <= k < lines@.len() ==> (#[trigger] lines@[k])@ == all[k],
            config@ == config_of(all.take(i as int)),
        decreases lines.len() - i,
    {
        assert(all.take(i + 1).drop_last() =~= all.take(i as int));
        assert(all.take(i + 1).last() == all[i as int]);
        config.read_chars(lines[i].as_slice());
        i += 1;
    }
    assert(all.take(i as int) =~= all);
    config
}

} // verus!
