//! Choosing the chart and song files from the command line.

use vstd::prelude::*;

use crate::text::text3;


verus! {

/// The command line: EITHER a folder OR both chart and song files.
#[derive(Debug, Clone, PartialEq, Eq)]
pub struct CliArgs {
    /// Path to the song folder containing maidata.txt and audio files
    pub folder: Option<String>,
    /// Path to the chart file (e.g., maidata.txt)
    pub chart: Option<String>,
    /// Path to the song audio file
    pub song: Option<String>,
    /// Chart file name when using --folder mode (default: maidata.txt)
    pub chart_name: String,
    pub offset: i64,
}

/// The chart and song that the player loads.
#[derive(Debug, Clone, PartialEq, Eq)]
pub struct ChartConfig {
    pub chart_path: String,
    pub song_path: String,
    pub offset: i64,
}

/// One entry of a folder listing.
#[derive(Debug, Clone, PartialEq, Eq)]
pub struct DirEntryInfo {
    /// The entry's path: the folder joined with its file name.
    pub path: String,
    /// The entry's file name.
    pub file_name: String,
}

/// What [`CliArgs::get_config`] needs to know of the file system.
#[derive(Debug, PartialEq, Eq)]
pub struct FsProbe {
    /// `folder` joined with `chart_name`, as the platform joins paths
    /// (folder mode only).
    pub folder_chart_path: String,
    /// Whether `folder_chart_path` exists.
    pub folder_chart_exists: bool,
    /// Whether `folder` exists.
    pub folder_exists: bool,
    /// The entries of `folder` in the order the system lists them, `None` for
    /// one that could not be read; `Err` with the system's reason when the
    /// folder could not be listed.
    pub folder_entries: Result<Vec<Option<DirEntryInfo>>, String>,
    /// Whether `chart` exists (file mode).
    pub chart_exists: bool,
    /// Whether `song` exists (file mode).
    pub song_exists: bool,
}

/// Why no configuration could be made.
#[derive(Debug, Clone, PartialEq, Eq)]
pub enum ConfigError {
    /// "Chart file not found: {path:?}"
    ChartNotFound(String),
    /// "Song file not found: {path:?}"
    SongNotFound(String),
    /// "Folder does not exist: {folder:?}"
    FolderMissing(String),
    /// "Failed to read directory {folder:?}: {reason}"
    ReadDirFailed(String, String),
    /// "No audio file (.wav, .ogg, .mp3) found in folder: {folder:?}"
    NoAudioFile(String),
}

/// The audio file extensions that a song folder is searched for.
pub open spec fn is_audio_extension(e: Seq<char>) -> bool {
    e == seq!['w', 'a', 'v'] || e == seq!['o', 'g', 'g'] || e == seq!['m', 'p', '3']
}

/// The position of the last `c` in `s.take(n)`.
pub open spec fn last_index_of(s: Seq<char>, c: char, n: int) -> Option<int>
    decreases n,
{
    if n <= 0 || n > s.len() {
        None
    } else if s[n - 1] == c {
        Some(n - 1)
    } else {
        last_index_of(s, c, n - 1)
    }
}

/// A file name's extension as `Path::extension` gives it: what follows the
/// last `.`, unless that dot starts the name, or the name is `..`.
pub open spec fn extension(name: Seq<char>) -> Option<Seq<char>> {
    if name == seq!['.', '.'] {
        None
    } else {
        match last_index_of(name, '.', name.len() as int) {
            None => None,
            Some(k) => if k == 0 {
                None
            } else {
                Some(name.subrange(k + 1, name.len() as int))
            },
        }
    }
}

pub open spec fn is_audio_file(name: Seq<char>) -> bool {
    match extension(name) {
        Some(e) => is_audio_extension(e),
        None => false,
    }
}

/// The position of the first readable entry that names an audio file.
pub open spec fn first_audio_from(entries: Seq<Option<DirEntryInfo>>, i: int) -> Option<int>
    decreases entries.len() - i,
{
    if i < 0 || i >= entries.len() {
        None
    } else {
        match entries[i] {
            Some(entry) => if is_audio_file(entry.file_name@) {
                Some(i)
            } else {
                first_audio_from(entries, i + 1)
            },
            None => first_audio_from(entries, i + 1),
        }
    }
}

/// A [`ConfigError`] seen as mathematical values.
pub enum ConfigErrorModel {
    ChartNotFound(Seq<char>),
    SongNotFound(Seq<char>),
    FolderMissing(Seq<char>),
    ReadDirFailed(Seq<char>, Seq<char>),
    NoAudioFile(Seq<char>),
}

impl View for ConfigError {
    type V = ConfigErrorModel;

    open spec fn view(&self) -> ConfigErrorModel {
        match self {
            ConfigError::ChartNotFound(p) => ConfigErrorModel::ChartNotFound(p@),
            ConfigError::SongNotFound(p) => ConfigErrorModel::SongNotFound(p@),
            ConfigError::FolderMissing(p) => ConfigErrorModel::FolderMissing(p@),
            ConfigError::ReadDirFailed(p, why) => ConfigErrorModel::ReadDirFailed(p@, why@),
            ConfigError::NoAudioFile(p) => ConfigErrorModel::NoAudioFile(p@),
        }
    }
}

/// How std's `Debug` writes the path `p`: in double quotes, with quotes,
/// backslashes and characters that do not print escaped.
pub uninterp spec fn path_debug(p: Seq<char>) -> Seq<char>;

/// Writes `p` as std's `Debug` writes a path (`format!("{:?}", Path::new(p))`).
/// What that text is, escapes included, is left to std: the contract only
/// ties the result to the path.
#[verifier::external_body]
fn path_debug_text(p: &String) -> (r: String)
    ensures
        r@ == path_debug(p@),
{
    format!("{:?}", std::path::Path::new(p.as_str()))
}

/// The message that tells why no configuration could be made.
pub open spec fn config_error_text(e: ConfigErrorModel) -> Seq<char> {
    match e {
        ConfigErrorModel::ChartNotFound(p) => "Chart file not found: "@ + path_debug(p),
        ConfigErrorModel::SongNotFound(p) => "Song file not found: "@ + path_debug(p),
        ConfigErrorModel::FolderMissing(p) => "Folder does not exist: "@ + path_debug(p),
        ConfigErrorModel::ReadDirFailed(p, why) => "Failed to read directory "@ + path_debug(p) + ": "@
            + why,
        ConfigErrorModel::NoAudioFile(p) => "No audio file (.wav, .ogg, .mp3) found in folder: "@
            + path_debug(p),
    }
}

impl ConfigError {
    /// The message that tells why no configuration could be made.
    pub fn message(&self) -> (r: String)
        ensures
            r@ == config_error_text(self@),
    {
        proof {
            reveal_strlit("");
        }
        match self {
            ConfigError::ChartNotFound(p) => {
                let q = path_debug_text(p);
                text3("Chart file not found: ", q.as_str(), "")
            },
            ConfigError::SongNotFound(p) => {
                let q = path_debug_text(p);
                text3("Song file not found: ", q.as_str(), "")
            },
            ConfigError::FolderMissing(p) => {
                let q = path_debug_text(p);
                text3("Folder does not exist: ", q.as_str(), "")
            },
            ConfigError::ReadDirFailed(p, why) => {
                let q = path_debug_text(p);
                let head = text3("Failed to read directory ", q.as_str(), ": ");
                text3(head.as_str(), why.as_str(), "")
            },
            ConfigError::NoAudioFile(p) => {
                let q = path_debug_text(p);
                text3("No audio file (.wav, .ogg, .mp3) found in folder: ", q.as_str(), "")
            },
        }
    }
}

/// The song that a folder offers, or why it offers none.
pub open spec fn folder_song(folder: Seq<char>, probe: FsProbe) -> Result<Seq<char>, ConfigErrorModel> {
    if !probe.folder_exists {
        Err(ConfigErrorModel::FolderMissing(folder))
    } else {
        match probe.folder_entries {
            Err(reason) => Err(ConfigErrorModel::ReadDirFailed(folder, reason@)),
            Ok(entries) => match first_audio_from(entries@, 0) {
                Some(i) => Ok(entries@[i]->0.path@),
                None => Err(ConfigErrorModel::NoAudioFile(folder)),
            },
        }
    }
}

/// The configuration that the command line asks for: (chart path, song path,
/// offset), or why there is none.
pub open spec fn config_of(args: CliArgs, probe: FsProbe) -> Result<(Seq<char>, Seq<char>, i64), ConfigErrorModel> {
    match args.folder {
        Some(folder) => if !probe.folder_chart_exists {
            Err(ConfigErrorModel::ChartNotFound(probe.folder_chart_path@))
        } else {
            match folder_song(folder@, probe) {
                Ok(song) => Ok((probe.folder_chart_path@, song, args.offset)),
                Err(e) => Err(e),
            }
        },
        None => if !probe.chart_exists {
            Err(ConfigErrorModel::ChartNotFound(args.chart->0@))
        } else if !probe.song_exists {
            Err(ConfigErrorModel::SongNotFound(args.song->0@))
        } else {
            Ok((args.chart->0@, args.song->0@, args.offset))
        },
    }
}

pub open spec fn config_result_view(r: Result<ChartConfig, ConfigError>) -> Result<(Seq<char>, Seq<char>, i64), ConfigErrorModel> {
    match r {
        Ok(c) => Ok((c.chart_path@, c.song_path@, c.offset)),
        Err(e) => Err(e@),
    }
}

fn copy_string(s: &String) -> (t: String)
    ensures
        t@ == s@,
{
    s.clone()
}

fn last_index_of_exec(s: &Vec<char>, c: char) -> (r: Option<usize>)
    ensures
        match r {
            Some(k) => last_index_of(s@, c, s.len() as int) == Some(k as int) && k < s.len(),
            None => last_index_of(s@, c, s.len() as int) is None,
        },
{
    let mut n = s.len();
    while n > 0
        invariant
            n <= s.len(),
            last_index_of(s@, c, s.len() as int) == last_index_of(s@, c, n as int),
        decreases n,
    {
        if s[n - 1] == c {
            return Some(n - 1);
        }
        n = n - 1;
    }
    None
}

fn range_spells(s: &Vec<char>, lo: usize, word: &Vec<char>) -> (r: bool)
    requires
        lo <= s.len(),
    ensures
        r == (s@.subrange(lo as int, s.len() as int) == word@),
{
    if s.len() - lo != word.len() {
        assert(s@.subrange(lo as int, s.len() as int).len() != word@.len());
        return false;
    }
    let mut k: usize = 0;
    while k < word.len()
        invariant
            k <= word.len() == s.len() - lo,
            forall|j: int| 0 <= j < k ==> s@[lo + j] == word@[j],
        decreases word.len() - k,
    {
        if s[lo + k] != word[k] {
            assert(s@.subrange(lo as int, s.len() as int)[k as int] != word@[k as int]);
            return false;
        }
        k = k + 1;
    }
    assert(s@.subrange(lo as int, s.len() as int) =~= word@);
    true
}

fn word3(a: char, b: char, c: char) -> (v: Vec<char>)
    ensures
        v@ == seq![a, b, c],
{
    let mut v = Vec::new();
    v.push(a);
    v.push(b);
    v.push(c);
    assert(v@ =~= seq![a, b, c]);
    v
}

/// Whether a file name has an audio extension.
pub fn is_audio_file_name(name: &str) -> (r: bool)
    ensures
        r == is_audio_file(name@),
{
    let s = crate::text::chars_of(name);
    if s.len() == 2 && s[0] == '.' && s[1] == '.' {
        assert(s@ =~= seq!['.', '.']);
        return false;
    }
    assert(s@ != seq!['.', '.']) by {
        if s@.len() == 2 {
            assert(s@[0] != '.' || s@[1] != '.');
            if s@[0] != '.' {
                assert(s@[0] != seq!['.', '.'][0]);
            } else {
                assert(s@[1] != seq!['.', '.'][1]);
            }
        }
    }
    match last_index_of_exec(&s, '.') {
        None => false,
        Some(k) => {
            if k == 0 {
                return false;
            }
            range_spells(&s, k + 1, &word3('w', 'a', 'v')) || range_spells(
                &s,
                k + 1,
                &word3('o', 'g', 'g'),
            ) || range_spells(&s, k + 1, &word3('m', 'p', '3'))
        },
    }
}

impl CliArgs {
    /// Finds the first audio file in the folder (.wav, .ogg, .mp3).
    fn find_audio_file(&self, folder: &String, probe: &FsProbe) -> (r: Result<String, ConfigError>)
        ensures
            match r {
                Ok(p) => folder_song(folder@, *probe) == Ok::<Seq<char>, ConfigErrorModel>(p@),
                Err(e) => folder_song(folder@, *probe) == Err::<Seq<char>, ConfigErrorModel>(e@),
            },
    {
        if !probe.folder_exists {
            return Err(ConfigError::FolderMissing(copy_string(folder)));
        }
        match &probe.folder_entries {
            Err(reason) => Err(ConfigError::ReadDirFailed(copy_string(folder), copy_string(reason))),
            Ok(entries) => {
                let mut i: usize = 0;
                while i < entries.len()
                    invariant
                        i <= entries.len(),
                        probe.folder_exists,
                        probe.folder_entries == Ok::<Vec<Option<DirEntryInfo>>, String>(*entries),
                        first_audio_from(entries@, 0) == first_audio_from(entries@, i as int),
                    decreases entries.len() - i,
                {
                    match &entries[i] {
                        Some(entry) => {
                            if is_audio_file_name(entry.file_name.as_str()) {
                                assert(entries@[i as int] == Some(*entry));
                                assert(first_audio_from(entries@, i as int) == Some(i as int));
                                return Ok(copy_string(&entry.path));
                            }
                        },
                        None => {},
                    }
                    i = i + 1;
                }
                Err(ConfigError::NoAudioFile(copy_string(folder)))
            },
        }
    }

    /// The chart and song to play: in folder mode the folder's chart
    /// (`chart_name`, which must exist) and its first audio file; otherwise
    /// the given chart and song, which must both exist.
    pub fn get_config(&self, probe: &FsProbe) -> (r: Result<ChartConfig, ConfigError>)
        requires
            self.folder is Some || (self.chart is Some && self.song is Some),
        ensures
            config_result_view(r) == config_of(*self, *probe),
    {
        match &self.folder {
            Some(folder) => {
                if !probe.folder_chart_exists {
                    return Err(ConfigError::ChartNotFound(copy_string(&probe.folder_chart_path)));
                }
                let song_path = self.find_audio_file(folder, probe)?;
                Ok(
                    ChartConfig {
                        chart_path: copy_string(&probe.folder_chart_path),
                        song_path,
                        offset: self.offset,
                    },
                )
            },
            None => {
                match (&self.chart, &self.song) {
                    (Some(chart), Some(song)) => {
                        if !probe.chart_exists {
                            return Err(ConfigError::ChartNotFound(copy_string(chart)));
                        }
                        if !probe.song_exists {
                            return Err(ConfigError::SongNotFound(copy_string(song)));
                        }
                        Ok(
                            ChartConfig {
                                chart_path: copy_string(chart),
                                song_path: copy_string(song),
                                offset: self.offset,
                            },
                        )
                    },
                    _ => {
                        assert(false);
                        Err(ConfigError::ChartNotFound(String::new()))
                    },
                }
            },
        }
    }
}

} // verus!
