//! Talking to the API: the paths asked for, cleaning its answers, and what
//! is made of the media's metadata.

use vstd::prelude::*;
use crate::text::{to_owned_string, push_char};
use crate::downloader::SeasonEntry;

verus! {

/// `c` may open a JSON document: `{` or `[`.
pub open spec fn json_open(c: char) -> bool {
    c == '{' || c == '['
}

/// The first index at or after `from` of a character that may open a JSON document.
pub open spec fn json_start(s: Seq<char>, from: int) -> Option<int>
    decreases s.len() - from,
{
    if from < 0 || from >= s.len() {
        None
    } else if json_open(s[from]) {
        Some(from)
    } else {
        json_start(s, from + 1)
    }
}

/// An answer with whatever precedes its JSON document dropped: from the
/// first `{` or `[` on, or the whole answer when it has neither.
pub open spec fn strip_to_json_spec(s: Seq<char>) -> Seq<char> {
    match json_start(s, 0) {
        Some(p) => s.subrange(p, s.len() as int),
        None => s,
    }
}

/// Drops whatever precedes the JSON document in an answer of the API.
pub fn strip_to_json(s: &str) -> (r: &str)
    ensures
        r@ == strip_to_json_spec(s@),
{
    let n = s.unicode_len();
    let mut i: usize = 0;
    while i < n
        invariant
            n == s@.len(),
            i <= n,
            json_start(s@, 0) == json_start(s@, i as int),
        decreases n - i,
    {
        let c = s.get_char(i);
        if c == '{' || c == '[' {
            return s.substring_char(i, n);
        }
        i = i + 1;
    }
    s
}

/// `json_start` finds the first opening character, and `None` means there is none.
pub proof fn lemma_json_start(s: Seq<char>, from: int)
    requires
        0 <= from,
    ensures
        match json_start(s, from) {
            Some(p) => from <= p < s.len() && json_open(s[p]) && forall|k: int|
                from <= k < p ==> !json_open(s[k]),
            None => forall|k: int| from <= k < s.len() ==> !json_open(s[k]),
        },
    decreases s.len() - from,
{
    if from < s.len() && !json_open(s[from]) {
        lemma_json_start(s, from + 1);
    }
}

/// Cleaning an answer keeps a suffix of it, which starts with `{` or `[`
/// when the answer has one, and cleaning it again changes nothing.
pub proof fn lemma_strip_to_json(s: Seq<char>)
    ensures
        exists|k: int|
            0 <= k <= s.len() && strip_to_json_spec(s) == s.subrange(k, s.len() as int),
        json_start(s, 0) is Some ==> json_open(strip_to_json_spec(s)[0]),
        strip_to_json_spec(strip_to_json_spec(s)) == strip_to_json_spec(s),
{
    lemma_json_start(s, 0);
    match json_start(s, 0) {
        Some(p) => {
            let r = s.subrange(p, s.len() as int);
            assert(r[0] == s[p]);
            assert(json_start(r, 0) == Some(0int));
            assert(r.subrange(0, r.len() as int) =~= r);
        },
        None => {
            assert(s.subrange(0, s.len() as int) =~= s);
        },
    }
}

/// A character that may stay in a file name: an ASCII letter or digit, `_` or `-`.
pub open spec fn filename_char(c: char) -> bool {
    ('a' <= c && c <= 'z') || ('A' <= c && c <= 'Z') || ('0' <= c && c <= '9') || c == '_' || c
        == '-'
}

/// The pattern of the characters that may not stay in a file name.
pub open spec fn filename_reject_pattern() -> Seq<char> {
    "[^a-zA-Z0-9_\\-]"@
}

/// Removes from `text` every match of `pattern`
/// (`regex::Regex::new(pattern)` then `replace_all` with nothing). It is
/// only called with the pattern that matches one character outside ASCII
/// letters, digits, `_` and `-` (a negated class matches any single
/// character not in it), which the crate compiles; removing all its matches
/// keeps exactly the other characters, in order.
#[verifier::external_body]
fn regex_remove_all(pattern: &str, text: &str) -> (r: String)
    requires
        pattern@ == filename_reject_pattern(),
    ensures
        r@ == text@.filter(|c: char| filename_char(c)),
{
    regex::Regex::new(pattern).unwrap().replace_all(text, "").into_owned()
}

/// `s` with every space turned into `_`.
pub open spec fn spaces_to_underscores(s: Seq<char>) -> Seq<char> {
    s.map_values(|c: char| if c == ' ' { '_' } else { c })
}

/// A title made safe as a file name: spaces become `_`, then every
/// character but ASCII letters, digits, `_` and `-` is dropped.
pub open spec fn sanitized(name: Seq<char>) -> Seq<char> {
    spaces_to_underscores(name).filter(|c: char| filename_char(c))
}

/// Turns the spaces of `name` into `_`.
fn replace_spaces(name: &str) -> (r: String)
    ensures
        r@ == spaces_to_underscores(name@),
{
    let n = name.unicode_len();
    let mut r = String::new();
    let mut i: usize = 0;
    while i < n
        invariant
            n == name@.len(),
            i <= n,
            r@ == spaces_to_underscores(name@.subrange(0, i as int)),
        decreases n - i,
    {
        let c = name.get_char(i);
        let d = if c == ' ' {
            '_'
        } else {
            c
        };
        crate::text::push_char(&mut r, d);
        i = i + 1;
        assert(r@ =~= spaces_to_underscores(name@.subrange(0, i as int)));
    }
    assert(name@.subrange(0, n as int) =~= name@);
    r
}

/// Makes a title safe as a file name.
pub fn sanitize_filename(name: &str) -> (r: String)
    ensures
        r@ == sanitized(name@),
{
    let spaced = replace_spaces(name);
    regex_remove_all("[^a-zA-Z0-9_\\-]", spaced.as_str())
}

/// A sanitized name holds only ASCII letters, digits, `_` and `-`, and
/// sanitizing it again changes nothing.
pub proof fn lemma_sanitized_safe(name: Seq<char>)
    ensures
        forall|i: int| 0 <= i < sanitized(name).len() ==> filename_char(#[trigger] sanitized(name)[i]),
        sanitized(sanitized(name)) == sanitized(name),
{
    broadcast use vstd::seq_lib::group_seq_properties;
    broadcast use vstd::seq_lib::group_filter_ensures;

    let s = sanitized(name);
    let keep = |c: char| filename_char(c);
    assert(spaces_to_underscores(s) =~= s);
    lemma_filter_all(s, keep);
}

/// Filtering a sequence all of whose elements pass keeps it whole.
proof fn lemma_filter_all(s: Seq<char>, p: spec_fn(char) -> bool)
    requires
        forall|i: int| 0 <= i < s.len() ==> p(s[i]),
    ensures
        s.filter(p) == s,
    decreases s.len(),
{
    reveal(Seq::filter);
    if s.len() > 0 {
        lemma_filter_all(s.drop_last(), p);
        assert(s.drop_last().push(s.last()) =~= s);
    } else {
        assert(s.filter(p) =~= s);
    }
}

/// The pattern of media types that are shows.
pub open spec fn show_type_pattern() -> Seq<char> {
    "(?i)show|series|tv|mini|episode|special"@
}

/// `c` with an ASCII capital made small.
pub open spec fn ascii_lowercase(c: char) -> char {
    if 'A' <= c && c <= 'Z' {
        ((c as u32) + 32) as char
    } else {
        c
    }
}

/// The words that mark a media type as a show.
pub open spec fn show_words() -> Seq<Seq<char>> {
    seq![
        seq!['s', 'h', 'o', 'w'],
        seq!['s', 'e', 'r', 'i', 'e', 's'],
        seq!['t', 'v'],
        seq!['m', 'i', 'n', 'i'],
        seq!['e', 'p', 'i', 's', 'o', 'd', 'e'],
        seq!['s', 'p', 'e', 'c', 'i', 'a', 'l'],
    ]
}

/// Character `c` matches the small ASCII letter `p` when case is ignored as
/// Unicode's simple case folding does: `p` itself, its capital, and for `s`
/// also the long s (U+017F).
pub open spec fn folds_to(c: char, p: char) -> bool {
    ascii_lowercase(c) == p || (p == 's' && c == '\u{17f}')
}

/// `w` stands at index `i` of `t`, ignoring case.
pub open spec fn word_at(t: Seq<char>, w: Seq<char>, i: int) -> bool {
    0 <= i && i + w.len() <= t.len() && forall|k: int|
        0 <= k < w.len() ==> folds_to(#[trigger] t[i + k], w[k])
}

/// `t` holds one of the show words somewhere, ignoring case.
pub open spec fn names_show(t: Seq<char>) -> bool {
    exists|i: int, j: int| 0 <= j < show_words().len() && #[trigger] word_at(t, show_words()[j], i)
}

/// Whether `pattern` matches somewhere in `text`
/// (`regex::Regex::new(pattern)` then `is_match`). It is only called with
/// the show-type pattern, which the crate compiles: an alternation of six
/// lowercase ASCII words under the case-insensitive flag. That flag matches
/// each letter with its simple case folding; of these letters only `s` has a
/// folding beyond its capital (U+017F). So the answer is whether one of the
/// words stands in the text with each character folding to its letter.
#[verifier::external_body]
fn regex_is_match(pattern: &str, text: &str) -> (r: bool)
    requires
        pattern@ == show_type_pattern(),
    ensures
        r == names_show(text@),
{
    regex::Regex::new(pattern).unwrap().is_match(text)
}

/// Whether a media type names a show: it holds `show`, `series`, `tv`,
/// `mini`, `episode` or `special`, in any case.
pub fn is_show_type(media_type: &str) -> (r: bool)
    ensures
        r == names_show(media_type@),
{
    regex_is_match("(?i)show|series|tv|mini|episode|special", media_type)
}

/// What the API tells of a movie or show.
pub struct Metadata {
    pub title: String,
    pub original_title: Option<String>,
    pub media_type: Option<String>,
    pub type_field: Option<String>,
    pub year: Option<i32>,
    /// The seasons, when the API gave them as an object.
    pub episodes: Option<Vec<SeasonEntry>>,
    pub has_primary_stream: Option<bool>,
}

/// Whether the metadata describes a show: by its media type, else by its
/// type, else not.
pub open spec fn metadata_is_show_spec(m: Metadata) -> bool {
    match m.media_type {
        Some(t) => names_show(t@),
        None => match m.type_field {
            Some(t) => names_show(t@),
            None => false,
        },
    }
}

/// Decides whether the metadata describes a show.
pub fn metadata_is_show(m: &Metadata) -> (r: bool)
    ensures
        r == metadata_is_show_spec(*m),
{
    match &m.media_type {
        Some(t) => is_show_type(t.as_str()),
        None => match &m.type_field {
            Some(t) => is_show_type(t.as_str()),
            None => false,
        },
    }
}

/// The metadata used when the API gives none: titled `<provider>:<id>`, a
/// movie, without a primary stream.
pub open spec fn is_fallback_metadata(m: Metadata, provider: Seq<char>, id: Seq<char>) -> bool {
    &&& m.title@ == provider + ":"@ + id
    &&& m.original_title is None
    &&& opt_string(m.media_type) == Some("movie"@)
    &&& m.type_field is None
    &&& m.year is None
    &&& m.episodes is None
    &&& m.has_primary_stream == Some(false)
}

/// The text of an optional string.
pub open spec fn opt_string(o: Option<String>) -> Option<Seq<char>> {
    match o {
        Some(s) => Some(s@),
        None => None,
    }
}

/// Builds the metadata used when the API gives none.
pub fn fallback_metadata(provider: &str, id: &str) -> (r: Metadata)
    ensures
        is_fallback_metadata(r, provider@, id@),
{
    let mut title = to_owned_string(provider);
    title.append(":");
    title.append(id);
    Metadata {
        title,
        original_title: None,
        media_type: Some(String::from_str("movie")),
        type_field: None,
        year: None,
        episodes: None,
        has_primary_stream: Some(false),
    }
}

/// The metadata to go on: the API's when it gave some, else the fallback.
pub fn resolve_metadata(parsed: Option<Metadata>, provider: &str, id: &str) -> (r: Metadata)
    ensures
        match parsed {
            Some(m) => r == m,
            None => is_fallback_metadata(r, provider@, id@),
        },
{
    match parsed {
        Some(m) => m,
        None => fallback_metadata(provider, id),
    }
}

/// The API path that gives the metadata of a media:
/// `/info?provider=<provider>&id=<id>` and `&args=<arg>` for each argument.
pub open spec fn info_path_spec(provider: Seq<char>, id: Seq<char>, args: Seq<Seq<char>>) -> Seq<char>
    decreases args.len(),
{
    if args.len() == 0 {
        "/info?provider="@ + provider + "&id="@ + id
    } else {
        info_path_spec(provider, id, args.drop_last()) + "&args="@ + args.last()
    }
}

/// Builds the API path that gives the metadata of a media.
pub fn info_path(provider: &str, id: &str, args: &Vec<String>) -> (r: String)
    ensures
        r@ == info_path_spec(provider@, id@, args@.map_values(|a: String| a@)),
{
    let mut r = String::from_str("/info?provider=");
    r.append(provider);
    r.append("&id=");
    r.append(id);
    let n = args.len();
    let mut i: usize = 0;
    while i < n
        invariant
            n == args@.len(),
            i <= n,
            r@ == info_path_spec(provider@, id@, args@.subrange(0, i as int).map_values(|a: String| a@)),
        decreases n - i,
    {
        let ghost pre = args@.subrange(0, i as int).map_values(|a: String| a@);
        let ghost next = args@.subrange(0, i + 1).map_values(|a: String| a@);
        assert(next.drop_last() =~= pre);
        assert(next.last() == args@[i as int]@);
        r.append("&args=");
        r.append(args[i].as_str());
        i = i + 1;
    }
    assert(args@.subrange(0, n as int) =~= args@);
    r
}

/// The parts of `s` between `:` characters, empty parts included, as
/// `str::split(':')` gives them; `cur` is the part read so far.
pub open spec fn split_colon_from(s: Seq<char>, cur: Seq<char>) -> Seq<Seq<char>>
    decreases s.len(),
{
    if s.len() == 0 {
        seq![cur]
    } else if s[0] == ':' {
        seq![cur] + split_colon_from(s.drop_first(), Seq::<char>::empty())
    } else {
        split_colon_from(s.drop_first(), cur.push(s[0]))
    }
}

/// The parts of `s` between `:` characters.
pub open spec fn split_colon(s: Seq<char>) -> Seq<Seq<char>> {
    split_colon_from(s, Seq::<char>::empty())
}

/// The provider, the ID and the extra arguments of a media ID written
/// `provider:id[:arg...]`; a media ID without `:` is an IMDb ID.
pub open spec fn media_parts_spec(media_id: Seq<char>) -> (Seq<char>, Seq<char>, Seq<Seq<char>>) {
    let p = split_colon(media_id);
    if p.len() >= 2 {
        (p[0], p[1], p.subrange(2, p.len() as int))
    } else {
        ("imdb"@, media_id, Seq::<Seq<char>>::empty())
    }
}

/// Splits `s` at its `:` characters.
fn split_colon_exec(s: &str) -> (r: Vec<String>)
    ensures
        r@.map_values(|x: String| x@) == split_colon(s@),
{
    let n = s.unicode_len();
    let mut parts: Vec<String> = Vec::new();
    let mut cur = String::new();
    let mut i: usize = 0;
    assert(s@.subrange(0, n as int) =~= s@);
    while i < n
        invariant
            n == s@.len(),
            i <= n,
            split_colon(s@) == parts@.map_values(|x: String| x@) + split_colon_from(
                s@.subrange(i as int, n as int),
                cur@,
            ),
        decreases n - i,
    {
        let c = s.get_char(i);
        let ghost rest = s@.subrange(i as int, n as int);
        assert(rest[0] == c);
        assert(rest.drop_first() =~= s@.subrange(i + 1, n as int));
        if c == ':' {
            let ghost before = parts@.map_values(|x: String| x@);
            let done = cur;
            parts.push(done);
            cur = String::new();
            assert(parts@.map_values(|x: String| x@) =~= before + seq![done@]);
        } else {
            push_char(&mut cur, c);
        }
        i = i + 1;
    }
    let ghost before = parts@.map_values(|x: String| x@);
    let last = cur;
    parts.push(last);
    assert(parts@.map_values(|x: String| x@) =~= before + seq![last@]);
    parts
}

/// Splits a media ID into provider, ID and extra arguments.
pub fn media_parts(media_id: &str) -> (r: (String, String, Vec<String>))
    ensures
        (r.0@, r.1@, r.2@.map_values(|x: String| x@)) == media_parts_spec(media_id@),
{
    let mut parts = split_colon_exec(media_id);
    let ghost all = parts@.map_values(|x: String| x@);
    if parts.len() >= 2 {
        let rest = parts.split_off(2);
        let id = parts.pop().unwrap();
        let provider = parts.pop().unwrap();
        assert(rest@.map_values(|x: String| x@) =~= all.subrange(2, all.len() as int));
        (provider, id, rest)
    } else {
        let none: Vec<String> = Vec::new();
        assert(none@.map_values(|x: String| x@) =~= Seq::<Seq<char>>::empty());
        (String::from_str("imdb"), to_owned_string(media_id), none)
    }
}

/// The full address of an API path.
pub fn api_url(base_url: &str, path: &str) -> (r: String)
    ensures
        r@ == base_url@ + path@,
{
    let mut r = to_owned_string(base_url);
    r.append(path);
    r
}

} // verus!
