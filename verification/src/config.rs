//! The command line options, the settings derived from them, and the checks
//! made before anything is downloaded.

use vstd::prelude::*;
use crate::text::{trim, trimmed, opt_view, cut_allowed};

verus! {

/// The command line options.
pub struct Args {
    /// IMDb ID, Animetsu ID, Anikoto ID, or Miruro ID.
    pub imdb_id: String,
    /// The API key, when given on the command line.
    pub key: Option<String>,
    /// Number of concurrent downloads (shows only).
    pub threads: usize,
    /// Number of concurrent fragments per download.
    pub concurrent_fragments: usize,
    /// Download and embed subtitles.
    pub embed_subs: bool,
    /// Preferred subtitle language.
    pub sub_lang: String,
    /// IMDb ID of the show, for subtitles.
    pub imdb: Option<String>,
    /// Base URL of the API.
    pub base_url: String,
    /// Only check that the video exists, and fetch and embed its subtitles.
    pub sub_only: bool,
    /// Skip a download whose output file already exists.
    pub skip_existing: bool,
    /// Process downloads on a memory-backed disk.
    pub use_ram_disk: bool,
}

/// The settings a download runs with.
pub struct Config {
    pub threads: usize,
    pub fragments: usize,
    pub api_key: String,
    pub embed_subs: bool,
    pub sub_lang: String,
    pub sub_imdb_id: String,
    pub base_url: String,
    pub sub_only: bool,
    pub skip_existing: bool,
    pub use_ram_disk: bool,
    pub ram_disk_path: Option<String>,
}

/// The API key to use: the one given on the command line, else the one from
/// the environment, trimmed; `None` when that leaves nothing.
pub open spec fn api_key_spec(from_env: Option<Seq<char>>, from_args: Option<Seq<char>>) -> Option<
    Seq<char>,
> {
    let key = match from_args {
        Some(k) => trimmed(k),
        None => match from_env {
            Some(k) => trimmed(k),
            None => Seq::<char>::empty(),
        },
    };
    if key.len() == 0 {
        None
    } else {
        Some(key)
    }
}

/// Chooses the API key: the command line's `--key` wins over the
/// environment's token; both are trimmed, and an empty key is refused.
pub fn resolve_api_key(from_env: Option<&str>, from_args: Option<&str>) -> (r: Option<String>)
    ensures
        match r {
            Some(k) => api_key_spec(opt_view(from_env), opt_view(from_args)) == Some(k@),
            None => api_key_spec(opt_view(from_env), opt_view(from_args)) is None,
        },
{
    let mut key = String::new();
    if let Some(tok) = from_env {
        key = String::from_str(trim(tok));
    }
    if let Some(k) = from_args {
        key = String::from_str(trim(k));
    }
    if key.as_str().is_empty() {
        None
    } else {
        Some(key)
    }
}

/// The IMDb ID used for subtitles: the one given with `--imdb`, else the
/// media ID itself when it starts with `tt`, else none (empty).
pub open spec fn subtitle_imdb_id_spec(explicit: Option<Seq<char>>, media_id: Seq<char>) -> Seq<
    char,
> {
    match explicit {
        Some(id) => id,
        None => if media_id.len() >= 2 && media_id[0] == 't' && media_id[1] == 't' {
            media_id
        } else {
            Seq::<char>::empty()
        },
    }
}

/// Chooses the IMDb ID used for subtitles. The media ID's first two bytes
/// are compared with `tt`, so they must not end inside a character.
pub fn subtitle_imdb_id(explicit: Option<&str>, media_id: &str) -> (r: String)
    requires
        explicit is None ==> cut_allowed(media_id@, 2),
    ensures
        r@ == subtitle_imdb_id_spec(opt_view(explicit), media_id@),
{
    match explicit {
        Some(id) => String::from_str(id),
        None => {
            let n = media_id.unicode_len();
            if n >= 2 && media_id.get_char(0) == 't' && media_id.get_char(1) == 't' {
                String::from_str(media_id)
            } else {
                String::new()
            }
        },
    }
}

/// The outside programs a run needs, in the order they are checked:
/// `yt-dlp` unless only subtitles are wanted, and `ffmpeg`.
pub fn required_tools(sub_only: bool) -> (r: Vec<&'static str>)
    ensures
        sub_only ==> r@.len() == 1 && r@[0]@ == "ffmpeg"@,
        !sub_only ==> r@.len() == 2 && r@[0]@ == "yt-dlp"@ && r@[1]@ == "ffmpeg"@,
{
    let mut r: Vec<&'static str> = Vec::new();
    if !sub_only {
        r.push("yt-dlp");
    }
    r.push("ffmpeg");
    r
}

/// Builds the settings from the command line options, the chosen API key and
/// subtitle ID, and the memory disk's path when one is mounted.
pub fn build_config(
    args: Args,
    api_key: String,
    sub_imdb_id: String,
    ram_disk_path: Option<String>,
) -> (r: Config)
    ensures
        r.threads == args.threads,
        r.fragments == args.concurrent_fragments,
        r.api_key == api_key,
        r.embed_subs == args.embed_subs,
        r.sub_lang == args.sub_lang,
        r.sub_imdb_id == sub_imdb_id,
        r.base_url == args.base_url,
        r.sub_only == args.sub_only,
        r.skip_existing == args.skip_existing,
        r.use_ram_disk == args.use_ram_disk,
        r.ram_disk_path == ram_disk_path,
{
    Config {
        threads: args.threads,
        fragments: args.concurrent_fragments,
        api_key,
        embed_subs: args.embed_subs,
        sub_lang: args.sub_lang,
        sub_imdb_id,
        base_url: args.base_url,
        sub_only: args.sub_only,
        skip_existing: args.skip_existing,
        use_ram_disk: args.use_ram_disk,
        ram_disk_path,
    }
}

} // verus!
