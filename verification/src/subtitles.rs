//! Choosing, naming and embedding subtitles: which subtitle to fetch, where
//! it is written, and the command that puts it into the video.

use vstd::prelude::*;
use crate::config::Config;
use crate::text::{
    decimal, push_decimal, first_index_of, last_index_of, find_char, rfind_char, has_prefix,
    starts_with, lowercase_of, to_lowercase, to_owned_string, str_eq, truncated_bytes, cut_allowed,
    truncate_bytes, can_cut, push_signed_decimal, signed_decimal,
};

verus! {

/// One subtitle the API offers; each field is `Some` when the API gave it as text.
pub struct SubtitleEntry {
    pub language: Option<String>,
    pub url: Option<String>,
    pub format: Option<String>,
    pub filename: Option<String>,
}

/// The text of an optional string.
pub open spec fn opt_text(o: Option<String>) -> Option<Seq<char>> {
    match o {
        Some(s) => Some(s@),
        None => None,
    }
}

/// The IMDb ID to fetch subtitles for: the configured one, else the media's.
pub fn effective_imdb_id<'a>(config: &'a Config, imdb_id: &'a str) -> (r: &'a str)
    ensures
        r@ == if config.sub_imdb_id@.len() == 0 {
            imdb_id@
        } else {
            config.sub_imdb_id@
        },
{
    if config.sub_imdb_id.as_str().is_empty() {
        imdb_id
    } else {
        config.sub_imdb_id.as_str()
    }
}

/// A link as given, when it starts with `http`, else joined to the API's base URL.
pub open spec fn absolute_url_spec(url: Seq<char>, base: Seq<char>) -> Seq<char> {
    if has_prefix(url, "http"@) {
        url
    } else {
        base + url
    }
}

/// Makes a subtitle link absolute.
pub fn absolute_url(url: &str, base: &str) -> (r: String)
    ensures
        r@ == absolute_url_spec(url@, base@),
{
    if starts_with(url, "http") {
        to_owned_string(url)
    } else {
        let mut r = to_owned_string(base);
        r.append(url);
        r
    }
}

/// `s` up to its first `?`, the whole of it when it has none.
pub open spec fn before_query(s: Seq<char>) -> Seq<char> {
    match first_index_of(s, '?', 0) {
        Some(q) => s.subrange(0, q),
        None => s,
    }
}

/// The extension named by a link: what follows the last `.` before the
/// query, lowercased, or `vtt` when there is no such `.` or nothing follows it.
pub open spec fn link_extension(url: Seq<char>) -> Seq<char> {
    let clean = before_query(url);
    match last_index_of(clean, '.', clean.len() as int) {
        Some(d) => if d + 1 < clean.len() {
            lowercase_of(clean.subrange(d + 1, clean.len() as int))
        } else {
            "vtt"@
        },
        None => "vtt"@,
    }
}

/// The subtitle described by a direct link from the download answer: in the
/// preferred language (English when none is set), in the link's format.
pub open spec fn direct_entry_ok(e: SubtitleEntry, url: Seq<char>, sub_lang: Seq<char>) -> bool {
    let ext = link_extension(url);
    &&& opt_text(e.language) == Some(if sub_lang.len() == 0 { "English"@ } else { sub_lang })
    &&& opt_text(e.format) == Some(ext)
    &&& opt_text(e.filename) == Some("subtitle."@ + ext)
    &&& e.url is None
}

/// The extension a link names.
pub fn url_extension(url: &str) -> (r: String)
    ensures
        r@ == link_extension(url@),
{
    let clean = match find_char(url, '?') {
        Some(q) => url.substring_char(0, q),
        None => url,
    };
    assert(clean@ == before_query(url@));
    let n = clean.unicode_len();
    match rfind_char(clean, '.') {
        Some(d) => {
            if d + 1 < n {
                to_lowercase(clean.substring_char(d + 1, n))
            } else {
                String::from_str("vtt")
            }
        },
        None => String::from_str("vtt"),
    }
}

/// The subtitle for a direct link from the download answer, and the
/// absolute link to fetch it from.
pub fn direct_subtitle(direct_url: &str, config: &Config) -> (r: (SubtitleEntry, String))
    ensures
        r.1@ == absolute_url_spec(direct_url@, config.base_url@),
        direct_entry_ok(r.0, r.1@, config.sub_lang@),
{
    let url = absolute_url(direct_url, config.base_url.as_str());
    let ext = url_extension(url.as_str());
    let language = if config.sub_lang.as_str().is_empty() {
        String::from_str("English")
    } else {
        config.sub_lang.clone()
    };
    let mut filename = String::from_str("subtitle.");
    filename.append(ext.as_str());
    let entry = SubtitleEntry {
        language: Some(language),
        url: None,
        format: Some(ext),
        filename: Some(filename),
    };
    (entry, url)
}

/// The API path that lists the subtitles of an episode (a positive episode
/// number) or of a movie.
pub open spec fn subtitles_path_spec(imdb_id: Seq<char>, season: Seq<char>, episode: nat) -> Seq<char> {
    if episode > 0 {
        "/subtitles/show/"@ + imdb_id + "/"@ + season + "/"@ + decimal(episode)
    } else {
        "/subtitles/movie/"@ + imdb_id
    }
}

/// Builds the API path that lists the subtitles.
pub fn subtitles_path(imdb_id: &str, season: &str, episode: usize) -> (r: String)
    ensures
        r@ == subtitles_path_spec(imdb_id@, season@, episode as nat),
{
    if episode > 0 {
        let mut r = String::from_str("/subtitles/show/");
        r.append(imdb_id);
        r.append("/");
        r.append(season);
        r.append("/");
        push_decimal(&mut r, episode);
        r
    } else {
        let mut r = String::from_str("/subtitles/movie/");
        r.append(imdb_id);
        r
    }
}

/// The language of a subtitle, lowercased (empty when it has none), compared
/// with the preferred one.
pub open spec fn language_matches(e: SubtitleEntry, wanted: Seq<char>) -> bool {
    lowercase_of(
        match e.language {
            Some(l) => l@,
            None => Seq::<char>::empty(),
        },
    ) == lowercase_of(wanted)
}

/// The subtitle to take from a list: the first in the preferred language
/// (compared without case), else the first.
pub open spec fn selected_index(subs: Seq<SubtitleEntry>, wanted: Seq<char>, from: int) -> int
    decreases subs.len() - from,
{
    if from < 0 || from >= subs.len() {
        0
    } else if language_matches(subs[from], wanted) {
        from
    } else {
        selected_index(subs, wanted, from + 1)
    }
}

proof fn lemma_selected_index_bound(subs: Seq<SubtitleEntry>, wanted: Seq<char>, from: int)
    requires
        subs.len() > 0,
    ensures
        0 <= selected_index(subs, wanted, from) < subs.len(),
    decreases subs.len() - from,
{
    if from >= 0 && from < subs.len() && !language_matches(subs[from], wanted) {
        lemma_selected_index_bound(subs, wanted, from + 1);
    }
}

proof fn lemma_selected_from(subs: Seq<SubtitleEntry>, wanted: Seq<char>, from: int)
    requires
        0 <= from <= subs.len(),
    ensures
        ({
            let r = selected_index(subs, wanted, from);
            &&& (exists|i: int| from <= i < subs.len() && language_matches(#[trigger] subs[i], wanted))
                ==> from <= r < subs.len() && language_matches(subs[r], wanted) && forall|j: int|
                from <= j < r ==> !language_matches(#[trigger] subs[j], wanted)
            &&& (forall|i: int| from <= i < subs.len() ==> !language_matches(#[trigger] subs[i], wanted))
                ==> r == 0
        }),
    decreases subs.len() - from,
{
    if from < subs.len() && !language_matches(subs[from], wanted) {
        lemma_selected_from(subs, wanted, from + 1);
        if exists|i: int| from <= i < subs.len() && language_matches(#[trigger] subs[i], wanted) {
            let i = choose|i: int| from <= i < subs.len() && language_matches(#[trigger] subs[i], wanted);
            assert(i != from);
            assert(from + 1 <= i < subs.len() && language_matches(subs[i], wanted));
        }
    }
}

/// The subtitle picked from a non-empty list is the first whose language,
/// lowercased (empty when it has none), equals the lowercased preferred
/// language: when some entry's does, the picked one's does and no entry
/// before it does; when none does, the first entry is picked.
pub proof fn lemma_selected_first_match(subs: Seq<SubtitleEntry>, wanted: Seq<char>)
    requires
        subs.len() > 0,
    ensures
        ({
            let r = selected_index(subs, wanted, 0);
            &&& 0 <= r < subs.len()
            &&& (exists|i: int|
                0 <= i < subs.len() && lowercase_of(
                    match #[trigger] subs[i].language {
                        Some(l) => l@,
                        None => Seq::<char>::empty(),
                    },
                ) == lowercase_of(wanted)) ==> lowercase_of(
                match subs[r].language {
                    Some(l) => l@,
                    None => Seq::<char>::empty(),
                },
            ) == lowercase_of(wanted)
            &&& forall|j: int|
                0 <= j < r ==> lowercase_of(
                    match #[trigger] subs[j].language {
                        Some(l) => l@,
                        None => Seq::<char>::empty(),
                    },
                ) != lowercase_of(wanted)
            &&& (forall|i: int|
                0 <= i < subs.len() ==> lowercase_of(
                    match #[trigger] subs[i].language {
                        Some(l) => l@,
                        None => Seq::<char>::empty(),
                    },
                ) != lowercase_of(wanted)) ==> r == 0
        }),
{
    lemma_selected_from(subs, wanted, 0);
    lemma_selected_index_bound(subs, wanted, 0);
    let r = selected_index(subs, wanted, 0);
    if exists|i: int|
        0 <= i < subs.len() && lowercase_of(
            match #[trigger] subs[i].language {
                Some(l) => l@,
                None => Seq::<char>::empty(),
            },
        ) == lowercase_of(wanted) {
        let i = choose|i: int|
            0 <= i < subs.len() && lowercase_of(
                match #[trigger] subs[i].language {
                    Some(l) => l@,
                    None => Seq::<char>::empty(),
                },
            ) == lowercase_of(wanted);
        assert(language_matches(subs[i], wanted));
    }
    assert forall|j: int| 0 <= j < r implies lowercase_of(
        match #[trigger] subs[j].language {
            Some(l) => l@,
            None => Seq::<char>::empty(),
        },
    ) != lowercase_of(wanted) by {
        assert(!language_matches(subs[j], wanted));
    }
    if forall|i: int|
        0 <= i < subs.len() ==> lowercase_of(
            match #[trigger] subs[i].language {
                Some(l) => l@,
                None => Seq::<char>::empty(),
            },
        ) != lowercase_of(wanted) {
        assert forall|i: int| 0 <= i < subs.len() implies !language_matches(#[trigger] subs[i], wanted) by {
            assert(lowercase_of(
                match subs[i].language {
                    Some(l) => l@,
                    None => Seq::<char>::empty(),
                },
            ) != lowercase_of(wanted));
        }
    }
}

/// Picks the subtitle to fetch from a non-empty list.
pub fn select_subtitle(subs: &Vec<SubtitleEntry>, sub_lang: &str) -> (r: usize)
    requires
        subs@.len() > 0,
    ensures
        r == selected_index(subs@, sub_lang@, 0),
        r < subs@.len(),
{
    proof {
        lemma_selected_index_bound(subs@, sub_lang@, 0);
    }
    let wanted = to_lowercase(sub_lang);
    let n = subs.len();
    let mut i: usize = 0;
    while i < n
        invariant
            n == subs@.len(),
            i <= n,
            wanted@ == lowercase_of(sub_lang@),
            selected_index(subs@, sub_lang@, 0) == selected_index(subs@, sub_lang@, i as int),
        decreases n - i,
    {
        let lang = match &subs[i].language {
            Some(l) => to_lowercase(l.as_str()),
            None => to_lowercase(""),
        };
        proof {
            assert(""@ =~= Seq::<char>::empty()) by {
                reveal_strlit("");
            }
        }
        if str_eq(lang.as_str(), wanted.as_str()) {
            return i;
        }
        i = i + 1;
    }
    0
}

/// The link of a listed subtitle, made absolute; empty when it has none.
pub fn listed_subtitle_url(entry: &SubtitleEntry, base: &str) -> (r: String)
    ensures
        r@ == match entry.url {
            Some(u) => absolute_url_spec(u@, base@),
            None => Seq::<char>::empty(),
        },
{
    match &entry.url {
        Some(u) => absolute_url(u.as_str(), base),
        None => String::new(),
    }
}

/// The extension the subtitle file is written with: `.` and its format
/// lowercased when the format is given and not empty, `.srt` when it is
/// empty; without a format, the file name's last `.` and what follows, else `.srt`.
pub open spec fn subtitle_extension_spec(e: SubtitleEntry) -> Seq<char> {
    match e.format {
        Some(f) => if f@.len() > 0 {
            "."@ + lowercase_of(f@)
        } else {
            ".srt"@
        },
        None => match e.filename {
            Some(name) => match last_index_of(name@, '.', name@.len() as int) {
                Some(p) => name@.subrange(p, name@.len() as int),
                None => ".srt"@,
            },
            None => ".srt"@,
        },
    }
}

/// The extension the subtitle file is written with.
pub fn subtitle_extension(entry: &SubtitleEntry) -> (r: String)
    ensures
        r@ == subtitle_extension_spec(*entry),
{
    match &entry.format {
        Some(f) => {
            if f.as_str().is_empty() {
                String::from_str(".srt")
            } else {
                let mut r = String::from_str(".");
                let low = to_lowercase(f.as_str());
                r.append(low.as_str());
                r
            }
        },
        None => match &entry.filename {
            Some(name) => match rfind_char(name.as_str(), '.') {
                Some(p) => {
                    let n = name.as_str().unicode_len();
                    to_owned_string(name.as_str().substring_char(p, n))
                },
                None => String::from_str(".srt"),
            },
            None => String::from_str(".srt"),
        },
    }
}

/// `path` with what follows its last `.` (the `.` included) replaced by
/// `ext`, or with `ext` added when it has no `.`.
pub open spec fn with_extension(path: Seq<char>, ext: Seq<char>) -> Seq<char> {
    match last_index_of(path, '.', path.len() as int) {
        Some(d) => path.subrange(0, d) + ext,
        None => path + ext,
    }
}

/// Replaces the extension of `path` by `ext`.
pub fn replace_extension(path: &str, ext: &str) -> (r: String)
    ensures
        r@ == with_extension(path@, ext@),
{
    match rfind_char(path, '.') {
        Some(d) => {
            let mut r = to_owned_string(path.substring_char(0, d));
            r.append(ext);
            r
        },
        None => {
            let mut r = to_owned_string(path);
            r.append(ext);
            r
        },
    }
}

/// The language tag given to the subtitle track: the subtitle's language
/// (`eng` when it has none), lowercased and cut to three bytes.
pub open spec fn language_code_spec(e: SubtitleEntry) -> Seq<char> {
    truncated_bytes(
        lowercase_of(
            match e.language {
                Some(l) => l@,
                None => "eng"@,
            },
        ),
        3,
    )
}

/// The language tag can be cut to three bytes without splitting a character.
pub open spec fn language_code_cuttable(e: SubtitleEntry) -> bool {
    cut_allowed(
        lowercase_of(
            match e.language {
                Some(l) => l@,
                None => "eng"@,
            },
        ),
        3,
    )
}

/// The lowercased language of a subtitle, before it is cut.
fn lowered_language(entry: &SubtitleEntry) -> (r: String)
    ensures
        r@ == lowercase_of(
            match entry.language {
                Some(l) => l@,
                None => "eng"@,
            },
        ),
{
    match &entry.language {
        Some(l) => to_lowercase(l.as_str()),
        None => to_lowercase("eng"),
    }
}

/// Decides `language_code_cuttable`.
pub fn can_make_language_code(entry: &SubtitleEntry) -> (r: bool)
    ensures
        r == language_code_cuttable(*entry),
{
    let low = lowered_language(entry);
    can_cut(low.as_str(), 3)
}

/// The language tag given to the subtitle track.
pub fn language_code(entry: &SubtitleEntry) -> (r: String)
    requires
        language_code_cuttable(*entry),
    ensures
        r@ == language_code_spec(*entry),
{
    let low = lowered_language(entry);
    to_owned_string(truncate_bytes(low.as_str(), 3))
}

/// The language tag, or `None` when cutting it to three bytes would split a
/// character.
pub fn try_language_code(entry: &SubtitleEntry) -> (r: Option<String>)
    ensures
        match r {
            Some(code) => language_code_cuttable(*entry) && code@ == language_code_spec(*entry),
            None => !language_code_cuttable(*entry),
        },
{
    if can_make_language_code(entry) {
        Some(language_code(entry))
    } else {
        None
    }
}

/// The shell command that muxes the subtitle into the video as a soft track.
pub open spec fn embed_command_spec(
    video: Seq<char>,
    subtitle: Seq<char>,
    lang: Seq<char>,
    out: Seq<char>,
) -> Seq<char> {
    "ffmpeg -y -i \""@ + video + "\" -i \""@ + subtitle
        + "\" -c copy -c:s mov_text -metadata:s:s:0 language="@ + lang + " \""@ + out
        + "\" > /dev/null 2>&1"@
}

/// Builds the shell command that muxes the subtitle into the video.
pub fn embed_command(video: &str, subtitle: &str, lang: &str, out: &str) -> (r: String)
    ensures
        r@ == embed_command_spec(video@, subtitle@, lang@, out@),
{
    let mut r = String::from_str("ffmpeg -y -i \"");
    r.append(video);
    r.append("\" -i \"");
    r.append(subtitle);
    r.append("\" -c copy -c:s mov_text -metadata:s:s:0 language=");
    r.append(lang);
    r.append(" \"");
    r.append(out);
    r.append("\" > /dev/null 2>&1");
    r
}

/// Where a subtitle is written while a video on the memory disk is
/// processed: `/tmp/imdb_sub_<process id><extension>`.
pub fn temp_subtitle_path(pid: u32, ext: &str) -> (r: String)
    ensures
        r@ == "/tmp/imdb_sub_"@ + decimal(pid as nat) + ext@,
{
    let mut r = String::from_str("/tmp/imdb_sub_");
    push_decimal(&mut r, pid as usize);
    r.append(ext);
    r
}

/// The shell command that muxes the subtitle into a video read from and
/// written to open file descriptors.
pub fn embed_command_fd(in_fd: i32, subtitle: &str, lang: &str, out_fd: i32) -> (r: String)
    ensures
        r@ == "ffmpeg -y -i \"/dev/fd/"@ + signed_decimal(in_fd as int) + "\" -i \""@ + subtitle@
            + "\" -c copy -c:s mov_text -metadata:s:s:0 language="@ + lang@ + " \"/dev/fd/"@
            + signed_decimal(out_fd as int) + "\" > /dev/null 2>&1"@,
{
    let mut r = String::from_str("ffmpeg -y -i \"/dev/fd/");
    push_signed_decimal(&mut r, in_fd);
    r.append("\" -i \"");
    r.append(subtitle);
    r.append("\" -c copy -c:s mov_text -metadata:s:s:0 language=");
    r.append(lang);
    r.append(" \"/dev/fd/");
    push_signed_decimal(&mut r, out_fd);
    r.append("\" > /dev/null 2>&1");
    r
}

/// The message shown before a listed subtitle is fetched.
pub fn downloading_message(entry: &SubtitleEntry) -> (r: String)
    ensures
        r@ == "[Subs] Downloading "@ + match entry.language {
            Some(l) => l@,
            None => "Unknown"@,
        } + " subtitle..."@,
{
    let mut r = String::from_str("[Subs] Downloading ");
    match &entry.language {
        Some(l) => r.append(l.as_str()),
        None => r.append("Unknown"),
    }
    r.append(" subtitle...");
    r
}

/// What becomes of a fetched subtitle.
pub enum SubtitleMode {
    /// Muxed into the video as a soft track (`--embed-subs`).
    Embed,
    /// Kept as a file beside the video.
    KeepBeside,
}

/// Subtitles are always fetched when one is available; they are embedded
/// when that was asked for, and else kept beside the video.
pub open spec fn subtitle_mode_spec(embed_subs: bool) -> SubtitleMode {
    if embed_subs {
        SubtitleMode::Embed
    } else {
        SubtitleMode::KeepBeside
    }
}

/// Chooses what becomes of a fetched subtitle.
pub fn subtitle_mode(config: &Config) -> (r: SubtitleMode)
    ensures
        r == subtitle_mode_spec(config.embed_subs),
{
    if config.embed_subs {
        SubtitleMode::Embed
    } else {
        SubtitleMode::KeepBeside
    }
}

/// The subtitle file beside a video: the video's path with its extension
/// replaced by the subtitle's.
pub fn subtitle_file_path(video_path: &str, entry: &SubtitleEntry) -> (r: String)
    ensures
        r@ == with_extension(video_path@, subtitle_extension_spec(*entry)),
{
    let ext = subtitle_extension(entry);
    replace_extension(video_path, ext.as_str())
}

} // verus!
